//! DECRQM ("request mode") probe and reply parsing.
//!
//! A request for private mode `Pm` is `CSI ? Pm $ p`; the terminal answers
//! `CSI ? Pm ; Ps $ y`, where `Ps` is 1 for set, 2 for reset, and 0, 3 or 4
//! for the other states.
use vstd::prelude::*;
use vstd::string::*;
use crate::sequences::{
    ascii_text, decimal_ascii, is_digit_byte, CSI_BRACKET, DIGIT_NINE, DIGIT_ZERO, ESC, PRIVATE_MARK,
};

verus! {

/// `;`, the parameter separator.
pub const PARAM_SEP: u8 = 0x3b;

/// `$`, the intermediate byte of DECRQM requests and replies.
pub const DOLLAR: u8 = 0x24;

/// `y`, the final byte of a DECRQM reply.
pub const REPLY_FINAL: u8 = 0x79;

/// `p`, the final byte of a DECRQM request.
pub const REQUEST_FINAL: u8 = 0x70;

/// The DECRQM request for private mode `mode`: `ESC [ ? mode $ p`.
pub open spec fn decrqm_request_bytes(mode: nat) -> Seq<u8> {
    seq![ESC, CSI_BRACKET, PRIVATE_MARK] + decimal_ascii(mode) + seq![DOLLAR, REQUEST_FINAL]
}

/// A DECRQM reply for private mode `mode` with state digit `ps`: `ESC [ ? mode ; ps $ y`.
pub open spec fn decrqm_reply_bytes(mode: nat, ps: nat) -> Seq<u8> {
    seq![ESC, CSI_BRACKET, PRIVATE_MARK] + decimal_ascii(mode) + seq![
        PARAM_SEP,
        (ps + DIGIT_ZERO) as u8,
        DOLLAR,
        REPLY_FINAL,
    ]
}

/// Reads the mode digits of a reply from index `j` on, with `pm` read so far.
/// Digits are taken while they last, and reading stops right after the first
/// digit that takes the value past 65535. Gives the index after the digits
/// read and their value.
pub open spec fn scan_mode_digits(s: Seq<u8>, j: int, pm: nat) -> (int, nat)
    decreases s.len() - j,
{
    if 0 <= j < s.len() && is_digit_byte(s[j]) {
        let next = (pm * 10 + (s[j] - DIGIT_ZERO)) as nat;
        if next > 65535 {
            (j + 1, next)
        } else {
            scan_mode_digits(s, j + 1, next)
        }
    } else {
        (j, pm)
    }
}

/// The reply that starts at index `i` of `s`, if one does: `ESC [ ?`, the mode
/// digits, `;`, one state digit, `$ y`. Mode digits that read past 65535 are
/// no `u16` mode, and start no reply.
pub open spec fn decrqm_reply_at(s: Seq<u8>, i: int) -> Option<(u16, u8)> {
    if 0 <= i && i + 2 < s.len() && s[i] == ESC && s[i + 1] == CSI_BRACKET && s[i + 2]
        == PRIVATE_MARK {
        let (j, pm) = scan_mode_digits(s, i + 3, 0);
        if pm <= 65535 && j + 3 < s.len() && s[j] == PARAM_SEP && is_digit_byte(s[j + 1])
            && s[j + 2] == DOLLAR && s[j + 3] == REPLY_FINAL {
            Some((pm as u16, (s[j + 1] - DIGIT_ZERO) as u8))
        } else {
            None
        }
    } else {
        None
    }
}

/// The first reply in `s` that starts at index `i` or later.
pub open spec fn decrqm_reply_from(s: Seq<u8>, i: int) -> Option<(u16, u8)>
    decreases s.len() - i,
{
    if 0 <= i && i + 6 < s.len() {
        if decrqm_reply_at(s, i) is Some {
            decrqm_reply_at(s, i)
        } else {
            decrqm_reply_from(s, i + 1)
        }
    } else {
        None
    }
}

/// The first DECRQM reply found anywhere in `s`.
pub open spec fn decrqm_reply(s: Seq<u8>) -> Option<(u16, u8)> {
    decrqm_reply_from(s, 0)
}

/// A one-character string holding the decimal digit `d`.
fn digit_str(d: u16) -> (s: &'static str)
    requires
        d < 10,
    ensures
        s@ == ascii_text(seq![(d + DIGIT_ZERO) as u8]),
{
    proof {
        reveal_strlit("0");
        reveal_strlit("1");
        reveal_strlit("2");
        reveal_strlit("3");
        reveal_strlit("4");
        reveal_strlit("5");
        reveal_strlit("6");
        reveal_strlit("7");
        reveal_strlit("8");
        reveal_strlit("9");
    }
    let s = match d {
        0 => "0",
        1 => "1",
        2 => "2",
        3 => "3",
        4 => "4",
        5 => "5",
        6 => "6",
        7 => "7",
        8 => "8",
        _ => "9",
    };
    assert(s@ =~= ascii_text(seq![(d + DIGIT_ZERO) as u8]));
    s
}

/// Appends the decimal digits of `n` to `out`.
fn push_decimal(out: &mut String, n: u16)
    ensures
        final(out)@ == old(out)@ + ascii_text(decimal_ascii(n as nat)),
    decreases n,
{
    if n >= 10 {
        push_decimal(out, n / 10);
    }
    let d = n % 10;
    out.append(digit_str(d));
    proof {
        if n >= 10 {
            assert(ascii_text(decimal_ascii(n as nat)) =~= ascii_text(decimal_ascii((n / 10) as nat))
                + ascii_text(seq![(d + DIGIT_ZERO) as u8]));
        } else {
            assert(ascii_text(decimal_ascii(n as nat)) =~= ascii_text(seq![(d + DIGIT_ZERO) as u8]));
        }
    }
}

/// Builds the DECRQM request for private mode `mode` (e.g. 1049, 1006).
/// Reply form: `CSI ? Pm ; Ps $ y` where Ps=1 set, Ps=2 reset.
pub fn decrqm_request(mode: u16) -> (r: String)
    ensures
        r@ == ascii_text(decrqm_request_bytes(mode as nat)),
{
    let mut out = String::new();
    out.append("\x1b[?");
    push_decimal(&mut out, mode);
    out.append("$p");
    proof {
        reveal_strlit("\x1b[?");
        reveal_strlit("$p");
        assert(ascii_text(decrqm_request_bytes(mode as nat)) =~= ascii_text(
            seq![ESC, CSI_BRACKET, PRIVATE_MARK],
        ) + ascii_text(decimal_ascii(mode as nat)) + ascii_text(seq![DOLLAR, REQUEST_FINAL]));
        assert(ascii_text(seq![ESC, CSI_BRACKET, PRIVATE_MARK]) =~= "\x1b[?"@);
        assert(ascii_text(seq![DOLLAR, REQUEST_FINAL]) =~= "$p"@);
    }
    out
}

/// Matches a reply starting at index `i` of `bytes`.
fn match_reply_at(bytes: &[u8], i: usize) -> (r: Option<(u16, u8)>)
    requires
        i + 6 < bytes@.len(),
    ensures
        r == decrqm_reply_at(bytes@, i as int),
{
    let len = bytes.len();
    if bytes[i] == ESC && bytes[i + 1] == CSI_BRACKET && bytes[i + 2] == PRIVATE_MARK {
        let mut j: usize = i + 3;
        let mut pm: u32 = 0;
        loop
            invariant_except_break
                pm <= 65535,
                scan_mode_digits(bytes@, j as int, pm as nat) == scan_mode_digits(
                    bytes@,
                    i + 3,
                    0,
                ),
            invariant
                len == bytes@.len(),
                j <= len,
            ensures
                j <= len,
                scan_mode_digits(bytes@, i + 3, 0) == (j as int, pm as nat),
            decreases len - j,
        {
            if j < len && DIGIT_ZERO <= bytes[j] && bytes[j] <= DIGIT_NINE {
                pm = pm * 10 + (bytes[j] - DIGIT_ZERO) as u32;
                j += 1;
                if pm > 65535 {
                    break;
                }
            } else {
                break;
            }
        }
        if pm <= 65535 && j < len && bytes[j] == PARAM_SEP {
            j += 1;
            if j < len && DIGIT_ZERO <= bytes[j] && bytes[j] <= DIGIT_NINE {
                let ps = bytes[j] - DIGIT_ZERO;
                j += 1;
                if len - j > 1 && bytes[j] == DOLLAR && bytes[j + 1] == REPLY_FINAL {
                    return Some((pm as u16, ps));
                }
            }
        }
    }
    None
}

/// Finds the first DECRQM reply (`ESC [ ? digits ; digit $ y`) in `data`.
fn regex_lite_decrqm(data: &str) -> (r: Option<(u16, u8)>)
    ensures
        r == decrqm_reply(data.spec_bytes()),
{
    let bytes = data.as_bytes();
    let len = bytes.len();
    let mut i: usize = 0;
    while i < len && len - i > 6
        invariant
            len == bytes@.len(),
            bytes@ == data.spec_bytes(),
            i <= len,
            decrqm_reply(bytes@) == decrqm_reply_from(bytes@, i as int),
        decreases len - i,
    {
        let found = match_reply_at(bytes, i);
        if found.is_some() {
            return found;
        }
        i += 1;
    }
    None
}

/// Parses a DECRQM reply from raw terminal input.
/// Returns `(mode, ps)` where `ps`: 1=set, 2=reset, 0/3/4=other.
pub fn parse_decrqm_reply(data: &str) -> (r: Option<(u16, u8)>)
    ensures
        r == decrqm_reply(data.spec_bytes()),
{
    let re = regex_lite_decrqm(data)?;
    Some(re)
}

/// True if DECRQM says the mode is reset (Ps=2) or unknown (treat as need reassert):
/// Ps 0 (unknown), 2 (reset) or 4 (permanently reset).
pub fn decrqm_indicates_reset(ps: u8) -> (r: bool)
    ensures
        r == (ps == 0 || ps == 2 || ps == 4),
{
    matches!(ps, 0 | 2 | 4)
}

/// The value of a run of ASCII decimal digits, most significant first.
pub open spec fn digits_value(d: Seq<u8>) -> nat
    decreases d.len(),
{
    if d.len() == 0 {
        0
    } else {
        (digits_value(d.drop_last()) * 10 + (d.last() - DIGIT_ZERO)) as nat
    }
}

/// The decimal digits of `n` are digits, read back as `n`, and no prefix of
/// them reads as more than `n`.
proof fn lemma_decimal_ascii(n: nat)
    ensures
        decimal_ascii(n).len() >= 1,
        forall|t: int|
            0 <= t < decimal_ascii(n).len() ==> is_digit_byte(#[trigger] decimal_ascii(n)[t]),
        forall|q: int|
            0 <= q <= decimal_ascii(n).len() ==> digits_value(#[trigger] decimal_ascii(n).take(q))
                <= n,
        digits_value(decimal_ascii(n)) == n,
    decreases n,
{
    let d = decimal_ascii(n);
    assert(digits_value(Seq::<u8>::empty()) == 0);
    if n < 10 {
        assert(d.take(0) =~= Seq::<u8>::empty());
        assert(d.take(1) =~= d);
        assert(d.drop_last() =~= Seq::<u8>::empty());
        assert(digits_value(d) == n);
        assert forall|q: int| 0 <= q <= d.len() implies digits_value(#[trigger] d.take(q)) <= n by {
            if q == 0 {
                assert(d.take(q) =~= Seq::<u8>::empty());
            } else {
                assert(d.take(q) =~= d);
            }
        }
    } else {
        lemma_decimal_ascii(n / 10);
        let h = decimal_ascii(n / 10);
        assert(d.drop_last() =~= h);
        assert(digits_value(d) == digits_value(h) * 10 + n % 10);
        assert(digits_value(d) == n);
        assert forall|q: int| 0 <= q <= d.len() implies digits_value(#[trigger] d.take(q)) <= n by {
            if q < d.len() {
                assert(d.take(q) =~= h.take(q));
                assert(digits_value(h.take(q)) <= n / 10);
            } else {
                assert(d.take(q) =~= d);
            }
        }
    }
}

/// Reading a run of `k` digits at `a`, none of whose prefixes exceeds 65535,
/// from its `q`-th digit on, ends right after the run with the run's value.
proof fn lemma_scan_digit_run(s: Seq<u8>, a: int, k: int, q: int)
    requires
        0 <= a,
        0 <= q <= k,
        a + k <= s.len(),
        forall|t: int| a <= t < a + k ==> is_digit_byte(#[trigger] s[t]),
        a + k == s.len() || !is_digit_byte(s[a + k]),
        forall|p: int| 0 <= p <= k ==> digits_value(#[trigger] s.subrange(a, a + p)) <= 65535,
    ensures
        scan_mode_digits(s, a + q, digits_value(s.subrange(a, a + q))) == (
            a + k,
            digits_value(s.subrange(a, a + k)),
        ),
    decreases k - q,
{
    if q < k {
        let q1 = q + 1;
        assert(s.subrange(a, a + q1).drop_last() =~= s.subrange(a, a + q));
        assert(s.subrange(a, a + q1).last() == s[a + q]);
        assert(digits_value(s.subrange(a, a + q1)) <= 65535);
        lemma_scan_digit_run(s, a, k, q1);
    }
}

/// A well-formed reply placed at index `p` of `s` is matched there.
proof fn lemma_reply_at_placed(s: Seq<u8>, p: int, mode: u16, ps: u8)
    requires
        ps < 10,
        0 <= p,
        p + decrqm_reply_bytes(mode as nat, ps as nat).len() <= s.len(),
        s.subrange(p, p + decrqm_reply_bytes(mode as nat, ps as nat).len()) == decrqm_reply_bytes(
            mode as nat,
            ps as nat,
        ),
    ensures
        decrqm_reply_at(s, p) == Some((mode, ps)),
{
    let r = decrqm_reply_bytes(mode as nat, ps as nat);
    let d = decimal_ascii(mode as nat);
    let k = d.len() as int;
    let a = p + 3;
    lemma_decimal_ascii(mode as nat);
    assert forall|t: int| 0 <= t < r.len() implies s[p + t] == #[trigger] r[t] by {
        assert(s.subrange(p, p + r.len())[t] == s[p + t]);
    }
    assert forall|t: int| a <= t < a + k implies is_digit_byte(#[trigger] s[t]) by {
        assert(s[p + (t - p)] == r[t - p]);
        assert(r[t - p] == d[t - a]);
    }
    assert(s[p + 3 + k] == r[3 + k]);
    assert forall|q: int| 0 <= q <= k implies digits_value(#[trigger] s.subrange(a, a + q))
        <= 65535 by {
        assert(s.subrange(a, a + q) =~= d.take(q)) by {
            assert forall|t: int| 0 <= t < q implies s.subrange(a, a + q)[t] == d.take(q)[t] by {
                assert(s[p + (3 + t)] == r[3 + t]);
            }
        }
    }
    assert(s.subrange(a, a) =~= Seq::<u8>::empty());
    lemma_scan_digit_run(s, a, k, 0);
    assert(s.subrange(a, a + k) =~= d.take(k)) by {
        assert forall|t: int| 0 <= t < k implies s.subrange(a, a + k)[t] == d.take(k)[t] by {
            assert(s[p + (3 + t)] == r[3 + t]);
        }
    }
    assert(d.take(k) =~= d);
    assert(s[p] == r[0]);
    assert(s[p + 1] == r[1]);
    assert(s[p + 2] == r[2]);
    assert(s[a + k + 1] == r[3 + k + 1]);
    assert(s[a + k + 2] == r[3 + k + 2]);
    assert(s[a + k + 3] == r[3 + k + 3]);
}

/// With no escape byte at indices `i..p`, the first reply from `i` on is the one at `p`.
proof fn lemma_reply_from_skips_to(s: Seq<u8>, i: int, p: int)
    requires
        0 <= i <= p,
        p + 6 < s.len(),
        decrqm_reply_at(s, p) is Some,
        forall|t: int| i <= t < p ==> s[t] != ESC,
    ensures
        decrqm_reply_from(s, i) == decrqm_reply_at(s, p),
    decreases p - i,
{
    if i < p {
        lemma_reply_from_skips_to(s, i + 1, p);
    }
}

/// A well-formed DECRQM reply `CSI ? Pm ; Ps $ y`, preceded by input that holds
/// no escape byte and followed by anything, parses to `(Pm, Ps)`.
pub proof fn lemma_reply_after_noise_parses(prefix: Seq<u8>, mode: u16, ps: u8, suffix: Seq<u8>)
    requires
        ps < 10,
        forall|i: int| 0 <= i < prefix.len() ==> prefix[i] != ESC,
    ensures
        decrqm_reply(prefix + decrqm_reply_bytes(mode as nat, ps as nat) + suffix) == Some(
            (mode, ps),
        ),
{
    let r = decrqm_reply_bytes(mode as nat, ps as nat);
    let s = prefix + r + suffix;
    let p = prefix.len() as int;
    lemma_decimal_ascii(mode as nat);
    assert(s.subrange(p, p + r.len()) =~= r);
    lemma_reply_at_placed(s, p, mode, ps);
    assert forall|t: int| 0 <= t < p implies s[t] != ESC by {
        assert(s[t] == prefix[t]);
    }
    lemma_reply_from_skips_to(s, 0, p);
}

/// Reading mode digits never moves backwards.
proof fn lemma_scan_advances(s: Seq<u8>, j: int, pm: nat)
    ensures
        scan_mode_digits(s, j, pm).0 >= j,
    decreases s.len() - j,
{
    if 0 <= j < s.len() && is_digit_byte(s[j]) {
        let next = (pm * 10 + (s[j] - DIGIT_ZERO)) as nat;
        if next <= 65535 {
            lemma_scan_advances(s, j + 1, next);
        }
    }
}

/// A reply needs at least seven bytes from its start.
proof fn lemma_reply_at_fits(s: Seq<u8>, i: int)
    ensures
        decrqm_reply_at(s, i) is Some ==> 0 <= i && i + 6 < s.len(),
{
    lemma_scan_advances(s, i + 3, 0);
}

/// From index `i` on, the first reply found is the one that starts earliest.
proof fn lemma_reply_from_earliest(s: Seq<u8>, i: int)
    requires
        0 <= i,
    ensures
        decrqm_reply_from(s, i) is None <==> forall|j: int|
            i <= j ==> #[trigger] decrqm_reply_at(s, j) is None,
        decrqm_reply_from(s, i) is Some ==> exists|j: int|
            i <= j && decrqm_reply_at(s, j) == decrqm_reply_from(s, i) && forall|k: int|
                i <= k < j ==> #[trigger] decrqm_reply_at(s, k) is None,
    decreases s.len() - i,
{
    if i + 6 < s.len() {
        lemma_reply_from_earliest(s, i + 1);
        if decrqm_reply_at(s, i) is None && decrqm_reply_from(s, i + 1) is Some {
            let j = choose|j: int|
                i + 1 <= j && decrqm_reply_at(s, j) == decrqm_reply_from(s, i + 1) && forall|k: int|
                    i + 1 <= k < j ==> #[trigger] decrqm_reply_at(s, k) is None;
            assert forall|k: int| i <= k < j implies #[trigger] decrqm_reply_at(s, k) is None by {
                if k > i {
                    assert(i + 1 <= k < j);
                }
            }
        }
    } else {
        assert forall|j: int| i <= j implies #[trigger] decrqm_reply_at(s, j) is None by {
            lemma_reply_at_fits(s, j);
        }
    }
}

/// The reply parsed from `s` is the one that starts earliest in `s`: there is
/// none exactly when no index of `s` starts a reply, and otherwise it is the
/// reply at the first index that starts one.
pub proof fn lemma_reply_is_earliest(s: Seq<u8>)
    ensures
        decrqm_reply(s) is None <==> forall|i: int| #[trigger] decrqm_reply_at(s, i) is None,
        forall|i: int|
            #![trigger decrqm_reply_at(s, i)]
            decrqm_reply_at(s, i) is Some && (forall|k: int|
                0 <= k < i ==> #[trigger] decrqm_reply_at(s, k) is None) ==> decrqm_reply(s)
                == decrqm_reply_at(s, i),
{
    lemma_reply_from_earliest(s, 0);
    assert forall|i: int|
        #![trigger decrqm_reply_at(s, i)]
        decrqm_reply_at(s, i) is Some && (forall|k: int|
            0 <= k < i ==> #[trigger] decrqm_reply_at(s, k) is None) implies decrqm_reply(s)
        == decrqm_reply_at(s, i) by {
        lemma_reply_at_fits(s, i);
        let j = choose|j: int|
            0 <= j && decrqm_reply_at(s, j) == decrqm_reply(s) && forall|k: int|
                0 <= k < j ==> #[trigger] decrqm_reply_at(s, k) is None;
        if j < i {
            assert(decrqm_reply_at(s, j) is None);
        } else if i < j {
            assert(decrqm_reply_at(s, i) is None);
        }
    }
}

/// Reading mode digits behind a prefix reads the same digits, shifted.
proof fn lemma_scan_shift(p: Seq<u8>, s: Seq<u8>, j: int, pm: nat)
    requires
        0 <= j,
    ensures
        scan_mode_digits(p + s, p.len() + j, pm) == (
            scan_mode_digits(s, j, pm).0 + p.len(),
            scan_mode_digits(s, j, pm).1,
        ),
    decreases s.len() - j,
{
    if j < s.len() {
        assert((p + s)[p.len() + j] == s[j]);
        if is_digit_byte(s[j]) {
            let next = (pm * 10 + (s[j] - DIGIT_ZERO)) as nat;
            if next <= 65535 {
                lemma_scan_shift(p, s, j + 1, next);
                assert(p.len() + j + 1 == p.len() + (j + 1));
            }
        }
    }
}

/// A reply at index `i` of `s` is the same reply at index `p.len() + i` of `p + s`.
proof fn lemma_reply_at_shift(p: Seq<u8>, s: Seq<u8>, i: int)
    requires
        0 <= i,
    ensures
        decrqm_reply_at(p + s, p.len() + i) == decrqm_reply_at(s, i),
{
    let ps = p + s;
    let n = p.len() as int;
    assert forall|k: int| 0 <= k < s.len() implies #[trigger] ps[n + k] == s[k] by {}
    lemma_scan_shift(p, s, i + 3, 0);
    assert(n + i + 3 == n + (i + 3));
    if i + 2 < s.len() {
        assert(ps[n + i] == s[i]);
        assert(ps[n + i + 1] == s[i + 1]);
        assert(ps[n + i + 2] == s[i + 2]);
        let j = scan_mode_digits(s, i + 3, 0).0;
        lemma_scan_advances(s, i + 3, 0);
        if j + 3 < s.len() {
            assert(ps[n + j] == s[j]);
            assert(ps[n + j + 1] == s[j + 1]);
            assert(ps[n + j + 2] == s[j + 2]);
            assert(ps[n + j + 3] == s[j + 3]);
        }
    }
}

/// Putting text that holds no escape byte in front of `s` leaves the parsed
/// reply unchanged: such text cannot start a reply, and the replies of `s` are
/// read as before.
pub proof fn lemma_escape_free_prefix_keeps_reply(prefix: Seq<u8>, s: Seq<u8>)
    requires
        forall|i: int| 0 <= i < prefix.len() ==> prefix[i] != ESC,
    ensures
        decrqm_reply(prefix + s) == decrqm_reply(s),
{
    let ps = prefix + s;
    let n = prefix.len() as int;
    lemma_reply_is_earliest(s);
    lemma_reply_is_earliest(ps);
    assert forall|k: int| 0 <= k < n implies #[trigger] decrqm_reply_at(ps, k) is None by {
        assert(ps[k] == prefix[k]);
    }
    assert forall|i: int| 0 <= i implies #[trigger] decrqm_reply_at(ps, n + i) == decrqm_reply_at(
        s,
        i,
    ) by {
        lemma_reply_at_shift(prefix, s, i);
    }
    if decrqm_reply(s) is None {
        assert forall|k: int| #[trigger] decrqm_reply_at(ps, k) is None by {
            if k >= n {
                assert(decrqm_reply_at(ps, n + (k - n)) == decrqm_reply_at(s, k - n));
            }
        }
    } else {
        lemma_reply_from_earliest(s, 0);
        let i0 = choose|j: int|
            0 <= j && decrqm_reply_at(s, j) == decrqm_reply(s) && forall|k: int|
                0 <= k < j ==> #[trigger] decrqm_reply_at(s, k) is None;
        assert(decrqm_reply_at(ps, n + i0) == decrqm_reply_at(s, i0));
        assert forall|k: int| 0 <= k < n + i0 implies #[trigger] decrqm_reply_at(ps, k) is None by {
            if k >= n {
                assert(decrqm_reply_at(ps, n + (k - n)) == decrqm_reply_at(s, k - n));
            }
        }
    }
}

/// Reading mode digits that stop before index `e` of `s` reads the same
/// whatever follows `s`.
proof fn lemma_scan_extend(s: Seq<u8>, t: Seq<u8>, j: int, pm: nat, e: int)
    requires
        0 <= j <= e,
        e < s.len(),
        !is_digit_byte(s[e]),
    ensures
        scan_mode_digits(s + t, j, pm) == scan_mode_digits(s, j, pm),
        scan_mode_digits(s, j, pm).0 <= e,
    decreases e - j,
{
    assert((s + t)[j] == s[j]);
    if is_digit_byte(s[j]) {
        let next = (pm * 10 + (s[j] - DIGIT_ZERO)) as nat;
        if next <= 65535 {
            lemma_scan_extend(s, t, j + 1, next, e);
        }
    }
}

/// A reply at index `i` whose mode digits stop at a non-digit `e`, with room
/// for the rest of a reply before the end of `s`, reads the same whatever
/// follows `s`.
proof fn lemma_reply_at_extend(s: Seq<u8>, t: Seq<u8>, i: int, e: int)
    requires
        0 <= i,
        i + 3 <= e,
        e + 3 < s.len(),
        !is_digit_byte(s[e]),
    ensures
        decrqm_reply_at(s + t, i) == decrqm_reply_at(s, i),
{
    let st = s + t;
    lemma_scan_extend(s, t, i + 3, 0, e);
    lemma_scan_advances(s, i + 3, 0);
    let j = scan_mode_digits(s, i + 3, 0).0;
    assert(st[i] == s[i]);
    assert(st[i + 1] == s[i + 1]);
    assert(st[i + 2] == s[i + 2]);
    assert(st[j] == s[j]);
    assert(st[j + 1] == s[j + 1]);
    assert(st[j + 2] == s[j + 2]);
    assert(st[j + 3] == s[j + 3]);
}

/// Text appended after input that holds a reply cannot change which reply is
/// found first.
pub proof fn lemma_appended_text_keeps_reply(s: Seq<u8>, t: Seq<u8>)
    requires
        decrqm_reply(s) is Some,
    ensures
        decrqm_reply(s + t) == decrqm_reply(s),
{
    let st = s + t;
    lemma_reply_from_earliest(s, 0);
    let i0 = choose|j: int|
        0 <= j && decrqm_reply_at(s, j) == decrqm_reply(s) && forall|k: int|
            0 <= k < j ==> #[trigger] decrqm_reply_at(s, k) is None;
    lemma_reply_at_fits(s, i0);
    lemma_scan_advances(s, i0 + 3, 0);
    let j0 = scan_mode_digits(s, i0 + 3, 0).0;
    lemma_reply_at_extend(s, t, i0, j0);
    assert forall|k: int| 0 <= k < i0 implies #[trigger] decrqm_reply_at(st, k) is None by {
        assert(decrqm_reply_at(s, k) is None);
        if k + 3 <= i0 {
            lemma_reply_at_extend(s, t, k, i0);
        } else {
            assert(st[i0] == s[i0]);
            if k + 2 < st.len() {
                assert(st[k + 1] == s[k + 1]);
                assert(st[k + 2] == s[k + 2]);
            }
        }
    }
    lemma_reply_is_earliest(st);
    assert(decrqm_reply(st) == decrqm_reply_at(st, i0));
}

/// `s` holds, from index `i` on, a DECRQM reply written out: `ESC [ ?`, a run of
/// `k` digits whose value is `mode`, `;`, the digit of `ps`, `$ y`.
pub open spec fn reply_written_at(s: Seq<u8>, i: int, k: int, mode: nat, ps: nat) -> bool {
    &&& 0 <= i
    &&& 0 <= k
    &&& i + k + 7 <= s.len()
    &&& s[i] == ESC
    &&& s[i + 1] == CSI_BRACKET
    &&& s[i + 2] == PRIVATE_MARK
    &&& forall|t: int| i + 3 <= t < i + 3 + k ==> is_digit_byte(#[trigger] s[t])
    &&& digits_value(s.subrange(i + 3, i + 3 + k)) == mode
    &&& s[i + 3 + k] == PARAM_SEP
    &&& ps <= 9
    &&& s[i + 4 + k] == ps + DIGIT_ZERO
    &&& s[i + 5 + k] == DOLLAR
    &&& s[i + 6 + k] == REPLY_FINAL
}

/// Reading mode digits from `j` on, after digits from `a` whose value is `pm`,
/// ends after a run of digits from `a`, with that run's value.
proof fn lemma_scan_reads_digits(s: Seq<u8>, a: int, j: int, pm: nat)
    requires
        0 <= a <= j <= s.len(),
        forall|t: int| a <= t < j ==> is_digit_byte(#[trigger] s[t]),
        pm == digits_value(s.subrange(a, j)),
    ensures
        j <= scan_mode_digits(s, j, pm).0 <= s.len(),
        forall|t: int| a <= t < scan_mode_digits(s, j, pm).0 ==> is_digit_byte(#[trigger] s[t]),
        scan_mode_digits(s, j, pm).1 == digits_value(
            s.subrange(a, scan_mode_digits(s, j, pm).0),
        ),
    decreases s.len() - j,
{
    if j < s.len() && is_digit_byte(s[j]) {
        let j1 = j + 1;
        assert(s.subrange(a, j1).drop_last() =~= s.subrange(a, j));
        assert(s.subrange(a, j1).last() == s[j]);
        let next = (pm * 10 + (s[j] - DIGIT_ZERO)) as nat;
        if next <= 65535 {
            lemma_scan_reads_digits(s, a, j1, next);
        }
    }
}

/// No prefix of a run of digits reads as more than the whole run.
proof fn lemma_digits_value_prefix(d: Seq<u8>, q: int)
    requires
        0 <= q <= d.len(),
        forall|t: int| 0 <= t < d.len() ==> is_digit_byte(#[trigger] d[t]),
    ensures
        digits_value(d.take(q)) <= digits_value(d),
    decreases d.len(),
{
    if q < d.len() {
        let h = d.drop_last();
        assert forall|t: int| 0 <= t < h.len() implies is_digit_byte(#[trigger] h[t]) by {
            assert(h[t] == d[t]);
        }
        lemma_digits_value_prefix(h, q);
        assert(h.take(q) =~= d.take(q));
    } else {
        assert(d.take(q) =~= d);
    }
}

/// Soundness of the parser: a reply it reports is written out in the input,
/// at some index: `ESC [ ?`, digits whose value is the reported mode, `;`,
/// the reported state digit, `$ y`.
pub proof fn lemma_reported_reply_is_in_input(s: Seq<u8>)
    ensures
        decrqm_reply(s) matches Some((mode, ps)) ==> exists|i: int, k: int|
            #[trigger] reply_written_at(s, i, k, mode as nat, ps as nat),
{
    lemma_reply_from_earliest(s, 0);
    if decrqm_reply(s) is Some {
        let (mode, ps) = decrqm_reply(s)->0;
        let i = choose|j: int|
            0 <= j && decrqm_reply_at(s, j) == decrqm_reply(s) && forall|k: int|
                0 <= k < j ==> #[trigger] decrqm_reply_at(s, k) is None;
        let a = i + 3;
        assert(s.subrange(a, a) =~= Seq::<u8>::empty());
        assert(digits_value(Seq::<u8>::empty()) == 0);
        lemma_reply_at_fits(s, i);
        lemma_scan_reads_digits(s, a, a, 0);
        let j = scan_mode_digits(s, a, 0).0;
        let k = j - a;
        assert(a + k == j);
        assert(reply_written_at(s, i, k, mode as nat, ps as nat));
    }
}

/// Completeness of the parser: input in which a reply with a mode of at most
/// 65535 is written out anywhere gives a reply.
pub proof fn lemma_written_reply_is_found(s: Seq<u8>, i: int, k: int, mode: nat, ps: nat)
    requires
        reply_written_at(s, i, k, mode, ps),
        mode <= 65535,
    ensures
        decrqm_reply(s) is Some,
{
    let a = i + 3;
    let d = s.subrange(a, a + k);
    assert forall|t: int| 0 <= t < d.len() implies is_digit_byte(#[trigger] d[t]) by {
        assert(d[t] == s[a + t]);
    }
    assert forall|q: int| 0 <= q <= k implies digits_value(#[trigger] s.subrange(a, a + q))
        <= 65535 by {
        lemma_digits_value_prefix(d, q);
        assert(s.subrange(a, a + q) =~= d.take(q));
    }
    assert(!is_digit_byte(s[a + k]));
    assert(s.subrange(a, a) =~= Seq::<u8>::empty());
    assert(digits_value(Seq::<u8>::empty()) == 0);
    lemma_scan_digit_run(s, a, k, 0);
    assert(decrqm_reply_at(s, i) is Some);
    lemma_reply_is_earliest(s);
}

/// The decimal digits of a positive number do not start with `0`.
proof fn lemma_decimal_ascii_leading(n: nat)
    requires
        n >= 1,
    ensures
        decimal_ascii(n)[0] != DIGIT_ZERO,
    decreases n,
{
    if n >= 10 {
        lemma_decimal_ascii_leading(n / 10);
        lemma_decimal_ascii(n / 10);
        assert(decimal_ascii(n)[0] == decimal_ascii(n / 10)[0]);
    }
}

/// The DECRQM request for `mode` is `ESC [ ?`, the decimal digits of `mode`
/// (a run of digits whose value is `mode`, with no leading `0`), then `$ p`.
pub proof fn lemma_request_layout(mode: u16)
    ensures
        ({
            let r = decrqm_request_bytes(mode as nat);
            let k = r.len() - 5;
            &&& k >= 1
            &&& r[0] == ESC
            &&& r[1] == CSI_BRACKET
            &&& r[2] == PRIVATE_MARK
            &&& forall|t: int| 3 <= t < 3 + k ==> is_digit_byte(#[trigger] r[t])
            &&& digits_value(r.subrange(3, 3 + k)) == mode
            &&& (k == 1 || r[3] != DIGIT_ZERO)
            &&& r[3 + k] == DOLLAR
            &&& r[4 + k] == REQUEST_FINAL
        }),
{
    let r = decrqm_request_bytes(mode as nat);
    let d = decimal_ascii(mode as nat);
    lemma_decimal_ascii(mode as nat);
    let k = d.len() as int;
    assert(r.len() - 5 == k);
    assert forall|t: int| 3 <= t < 3 + k implies is_digit_byte(#[trigger] r[t]) by {
        assert(r[t] == d[t - 3]);
    }
    assert(r.subrange(3, 3 + k) =~= d);
    if mode >= 1 {
        lemma_decimal_ascii_leading(mode as nat);
        assert(r[3] == d[0]);
    } else {
        assert(k == 1);
    }
    assert(r[3 + k] == DOLLAR);
    assert(r[4 + k] == REQUEST_FINAL);
}

/// A request is answered in its own terms: the request for `mode` with its
/// final `$ p` replaced by `; Ps $ y` parses back to `(mode, Ps)`.
pub proof fn lemma_request_answered_by_reply(mode: u16, ps: u8)
    requires
        ps < 10,
    ensures
        ({
            let r = decrqm_request_bytes(mode as nat);
            &&& r.len() >= 2
            &&& r.subrange(r.len() - 2, r.len() as int) == seq![DOLLAR, REQUEST_FINAL]
            &&& decrqm_reply(
                r.subrange(0, r.len() - 2) + seq![
                    PARAM_SEP,
                    (ps + DIGIT_ZERO) as u8,
                    DOLLAR,
                    REPLY_FINAL,
                ],
            ) == Some((mode, ps))
        }),
{
    let r = decrqm_request_bytes(mode as nat);
    let tail = seq![PARAM_SEP, (ps + DIGIT_ZERO) as u8, DOLLAR, REPLY_FINAL];
    assert(r.subrange(r.len() - 2, r.len() as int) =~= seq![DOLLAR, REQUEST_FINAL]);
    let reply = r.subrange(0, r.len() - 2) + tail;
    assert(reply =~= Seq::<u8>::empty() + decrqm_reply_bytes(mode as nat, ps as nat)
        + Seq::<u8>::empty());
    lemma_reply_after_noise_parses(Seq::<u8>::empty(), mode, ps, Seq::<u8>::empty());
}

} // verus!

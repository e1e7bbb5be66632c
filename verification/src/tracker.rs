//! The tracker client's verified core: the announce URL is assembled byte
//! for byte (the two 20-byte ids percent-encoded one `%hh` per byte), the
//! bencoded answer is read by a parser specified against a byte-level
//! mirror, and the compact peer list is cut into address/port pairs. The
//! HTTP exchange itself lives with the caller.

use vstd::prelude::*;

verus! {

/// What reading a tracker answer can fail with.
#[derive(Clone, Copy, Debug, PartialEq, Eq, Structural)]
pub enum TrackerError {
    /// The bytes are not the bencoded form this client accepts.
    Malformed,
    /// The compact peer string's length is not a multiple of six.
    BadPeerList,
}

/// One peer address from the compact form: four address bytes and a port,
/// both big-endian on the wire.
#[derive(Clone, Copy, Debug, PartialEq, Eq, Structural)]
pub struct PeerAddr {
    pub a: u8,
    pub b: u8,
    pub c: u8,
    pub d: u8,
    pub port: u16,
}

/// The peer addresses a tracker answer carries.
#[derive(Clone, Debug)]
pub struct PeerList(pub Vec<PeerAddr>);

/// What the client reports when it announces. The two 20-byte ids travel
/// separately, percent-encoded.
#[derive(Clone, Copy, Debug)]
pub struct TrackerRequest {
    pub port: u16,
    pub uploaded: usize,
    pub downloaded: usize,
    pub left: usize,
    pub compact: u8,
}

/// A successful tracker answer: how long to wait before the next announce,
/// and the peers to try.
#[derive(Clone, Debug)]
pub struct TrackerResponse {
    pub interval: usize,
    pub peers: PeerList,
}

/// A failing tracker answer: the reason the tracker gives.
#[derive(Clone, Debug)]
pub struct TrackerResponseErr {
    pub reason: String,
}

/// `interval` — the key of the re-announce interval.
pub const INTERVAL_NAME: [u8; 8] = [105, 110, 116, 101, 114, 118, 97, 108];

/// `peers` — the key of the compact peer string.
pub const PEERS_NAME: [u8; 5] = [112, 101, 101, 114, 115];

/// `reason` — the key of a failing answer's explanation.
pub const REASON_NAME: [u8; 6] = [114, 101, 97, 115, 111, 110];

pub open spec fn spec_is_digit(b: u8) -> bool {
    48 <= b <= 57
}

/// The first position at or after `pos` that does not hold a digit.
pub open spec fn spec_run_end(data: Seq<u8>, pos: int) -> int
    decreases data.len() - pos,
{
    if 0 <= pos < data.len() && spec_is_digit(data[pos]) {
        spec_run_end(data, pos + 1)
    } else {
        pos
    }
}

/// The value of the digit run `[pos, end)`, most significant first.
pub open spec fn spec_digits_val(data: Seq<u8>, pos: int, end: int) -> int
    decreases end - pos,
{
    if pos >= end {
        0
    } else {
        spec_digits_val(data, pos, end - 1) * 10 + (data[end - 1] - 48)
    }
}

proof fn lemma_run_end_bounds(data: Seq<u8>, pos: int)
    requires
        0 <= pos <= data.len(),
    ensures
        pos <= spec_run_end(data, pos) <= data.len(),
        forall|k: int| pos <= k < spec_run_end(data, pos) ==> spec_is_digit(data[k]),
        spec_run_end(data, pos) == data.len() || !spec_is_digit(data[spec_run_end(data, pos)]),
    decreases data.len() - pos,
{
    if pos < data.len() && spec_is_digit(data[pos]) {
        lemma_run_end_bounds(data, pos + 1);
    }
}

proof fn lemma_digits_nonneg(data: Seq<u8>, pos: int, end: int)
    requires
        forall|k: int| pos <= k < end ==> spec_is_digit(data[k]),
    ensures
        spec_digits_val(data, pos, end) >= 0,
    decreases end - pos,
{
    if pos < end {
        lemma_digits_nonneg(data, pos, end - 1);
        assert(spec_digits_val(data, pos, end - 1) * 10 >= 0) by (nonlinear_arith)
            requires
                spec_digits_val(data, pos, end - 1) >= 0,
        ;
    }
}

proof fn lemma_digits_monotonic(data: Seq<u8>, pos: int, k: int, end: int)
    requires
        pos <= k <= end,
        forall|x: int| pos <= x < end ==> spec_is_digit(data[x]),
    ensures
        spec_digits_val(data, pos, end) >= spec_digits_val(data, pos, k),
    decreases end - k,
{
    if k < end {
        lemma_digits_monotonic(data, pos, k, end - 1);
        lemma_digits_nonneg(data, pos, end - 1);
        assert(spec_digits_val(data, pos, end - 1) * 10 >= spec_digits_val(data, pos, end - 1))
            by (nonlinear_arith)
            requires
                spec_digits_val(data, pos, end - 1) >= 0,
        ;
    }
}

/// Read the digit run starting at `pos`: its value and where it ends. The
/// read fails when no digit stands at `pos`, or the value does not fit the
/// machine.
pub(crate) fn scan_number(data: &Vec<u8>, pos: usize) -> (r: Option<(usize, usize)>)
    requires
        pos <= data@.len(),
    ensures
        match r {
            Some(v_end) => {
                let (v, end) = v_end;
                &&& end == spec_run_end(data@, pos as int)
                &&& pos < end <= data@.len()
                &&& v == spec_digits_val(data@, pos as int, end as int)
            },
            None => spec_run_end(data@, pos as int) == pos || spec_digits_val(
                data@,
                pos as int,
                spec_run_end(data@, pos as int),
            ) > usize::MAX,
        },
{
    proof {
        lemma_run_end_bounds(data@, pos as int);
    }
    let data_len: usize = data.len();
    let mut i: usize = pos;
    let mut acc: usize = 0;
    while i < data_len
        invariant
            pos <= i <= data_len,
            data@.len() == data_len,
            spec_run_end(data@, pos as int) == spec_run_end(data@, i as int),
            forall|k: int| pos <= k < i ==> spec_is_digit(data@[k]),
            acc == spec_digits_val(data@, pos as int, i as int),
        decreases data_len - i,
    {
        let b: u8 = data[i];
        if !(48 <= b && b <= 57) {
            proof {
                lemma_run_end_bounds(data@, i as int);
            }
            if i == pos {
                return None;
            }
            return Some((acc, i));
        }
        let digit: usize = (b - 48) as usize;
        let next: usize = match acc.checked_mul(10) {
            Some(m) => match m.checked_add(digit) {
                Some(s) => s,
                None => {
                    proof {
                        lemma_run_end_bounds(data@, pos as int);
                        lemma_run_end_bounds(data@, i as int);
                        lemma_digits_monotonic(
                            data@,
                            pos as int,
                            i + 1,
                            spec_run_end(data@, pos as int),
                        );
                    }
                    return None;
                },
            },
            None => {
                proof {
                    lemma_run_end_bounds(data@, pos as int);
                    lemma_run_end_bounds(data@, i as int);
                    lemma_digits_monotonic(
                        data@,
                        pos as int,
                        i + 1,
                        spec_run_end(data@, pos as int),
                    );
                    lemma_digits_nonneg(data@, pos as int, i as int);
                    assert(acc * 10 + digit >= acc * 10) by (nonlinear_arith)
                        requires
                            digit >= 0,
                    ;
                }
                return None;
            },
        };
        acc = next;
        i = i + 1;
    }
    proof {
        lemma_run_end_bounds(data@, i as int);
        assert(spec_run_end(data@, i as int) == i);
    }
    if i == pos {
        return None;
    }
    Some((acc, i))
}

/// Whether the `len` bytes of `data` at `start` are exactly `pat`.
fn region_matches<const N: usize>(data: &Vec<u8>, start: usize, len: usize, pat: &[u8; N]) -> (r:
    bool)
    requires
        start + len <= data@.len(),
    ensures
        r == (data@.subrange(start as int, start as int + len) == pat@),
{
    if len != N {
        assert(data@.subrange(start as int, start as int + len) != pat@) by {
            assert(data@.subrange(start as int, start as int + len).len() != pat@.len());
        }
        return false;
    }
    let data_len: usize = data.len();
    let mut i: usize = 0;
    while i < N
        invariant
            i <= N,
            len == N,
            data@.len() == data_len,
            start + len <= data_len,
            forall|k: int| 0 <= k < i ==> data@[start + k] == pat@[k],
        decreases N - i,
    {
        if data[start + i] != pat[i] {
            assert(data@.subrange(start as int, start as int + len) != pat@) by {
                let k = i as int;
                assert(data@.subrange(start as int, start as int + len)[k] != pat@[k]);
            }
            return false;
        }
        i = i + 1;
    }
    assert(data@.subrange(start as int, start as int + len) =~= pat@);
    true
}

/// The end of the digit run starting at `pos`.
fn scan_run_end(data: &Vec<u8>, pos: usize) -> (r: usize)
    requires
        pos <= data@.len(),
    ensures
        r == spec_run_end(data@, pos as int),
        pos <= r <= data@.len(),
{
    proof {
        lemma_run_end_bounds(data@, pos as int);
    }
    let data_len: usize = data.len();
    let mut i: usize = pos;
    while i < data_len
        invariant
            pos <= i <= data_len,
            data@.len() == data_len,
            spec_run_end(data@, pos as int) == spec_run_end(data@, i as int),
            forall|k: int| pos <= k < i ==> spec_is_digit(data@[k]),
        decreases data_len - i,
    {
        let b: u8 = data[i];
        if !(48 <= b && b <= 57) {
            proof {
                lemma_run_end_bounds(data@, i as int);
            }
            return i;
        }
        i = i + 1;
    }
    proof {
        lemma_run_end_bounds(data@, i as int);
    }
    i
}

/// Read a byte string's header at `pos`: where its bytes start and how many
/// they are.
fn parse_bytes_header(data: &Vec<u8>, pos: usize) -> (r: Option<(usize, usize)>)
    requires
        pos <= data@.len(),
    ensures
        match r {
            Some(sn) => {
                let (start, n) = sn;
                &&& spec_parse_benbytes(data@, pos as int) == Some(
                    (data@.subrange(start as int, start as int + n), start + n as int),
                )
                &&& pos < start
                &&& start + n <= data@.len()
            },
            None => spec_parse_benbytes(data@, pos as int) is None,
        },
{
    let data_len: usize = data.len();
    let e: usize = scan_run_end(data, pos);
    if e == pos {
        return None;
    }
    if e >= data_len {
        return None;
    }
    let colon: u8 = data[e];
    if colon != 58 {
        return None;
    }
    proof {
        lemma_run_end_bounds(data@, pos as int);
    }
    match scan_number(data, pos) {
        Some((n, _end)) => {
            if n > data_len - (e + 1) {
                return None;
            }
            Some((e + 1, n))
        },
        None => {
            proof {
                lemma_run_end_bounds(data@, pos as int);
                lemma_digits_nonneg(data@, pos as int, e as int);
            }
            None
        },
    }
}

/// Read an integer `i<digits>e` at `pos`: its value, where it fits the
/// machine, and the position after the closing `e`.
fn parse_int_header(data: &Vec<u8>, pos: usize) -> (r: Option<(Option<usize>, usize)>)
    requires
        pos <= data@.len(),
    ensures
        match r {
            Some(ve) => {
                let (v, end) = ve;
                &&& spec_parse_benint(data@, pos as int) matches Some(sp) && sp.1 == end && (
                match v {
                    Some(x) => sp.0 == x,
                    None => sp.0 > usize::MAX,
                })
                &&& pos < end <= data@.len()
            },
            None => spec_parse_benint(data@, pos as int) is None,
        },
{
    let data_len: usize = data.len();
    if pos >= data_len {
        return None;
    }
    let lead: u8 = data[pos];
    if lead != 105 {
        return None;
    }
    let e: usize = scan_run_end(data, pos + 1);
    if e == pos + 1 {
        return None;
    }
    if e >= data_len {
        return None;
    }
    let close: u8 = data[e];
    if close != 101 {
        return None;
    }
    match scan_number(data, pos + 1) {
        Some((v, _end)) => Some((Some(v), e + 1)),
        None => Some((None, e + 1)),
    }
}

/// A bencoded integer `i<digits>e` at `pos`: its value and the position
/// after the closing `e`.
pub open spec fn spec_parse_benint(data: Seq<u8>, pos: int) -> Option<(int, int)> {
    if 0 <= pos < data.len() && data[pos] == 105 {
        let e = spec_run_end(data, pos + 1);
        if e > pos + 1 && e < data.len() && data[e] == 101 {
            Some((spec_digits_val(data, pos + 1, e), e + 1))
        } else {
            None
        }
    } else {
        None
    }
}

/// A bencoded byte string `<len>:<bytes>` at `pos`: its bytes and the
/// position after them.
pub open spec fn spec_parse_benbytes(data: Seq<u8>, pos: int) -> Option<(Seq<u8>, int)> {
    if 0 <= pos <= data.len() {
        let e = spec_run_end(data, pos);
        let n = spec_digits_val(data, pos, e);
        if e > pos && e < data.len() && data[e] == 58 && e + 1 + n <= data.len() {
            Some((data.subrange(e + 1, e + 1 + n), e + 1 + n))
        } else {
            None
        }
    } else {
        None
    }
}

/// A flat bencoded value: an integer or a byte string. Lists and inner
/// dictionaries are not taken; an answer carrying one is refused.
pub enum BenValue {
    Int(int),
    Bytes(Seq<u8>),
}

/// The flat value at `pos`: an integer where `i` leads, else a byte string.
pub open spec fn spec_parse_benvalue(data: Seq<u8>, pos: int) -> Option<(BenValue, int)> {
    if 0 <= pos < data.len() && data[pos] == 105 {
        match spec_parse_benint(data, pos) {
            Some((v, p)) => Some((BenValue::Int(v), p)),
            None => None,
        }
    } else {
        match spec_parse_benbytes(data, pos) {
            Some((s, p)) => Some((BenValue::Bytes(s), p)),
            None => None,
        }
    }
}

/// Walk a successful answer's dictionary entries from `pos`. Unknown keys
/// are skipped over whatever flat value they carry; `interval` must carry
/// an integer and `peers` a byte string, each exactly once; the dictionary
/// must close exactly at the end of the input with both keys seen.
pub open spec fn spec_walk_success(
    data: Seq<u8>,
    pos: int,
    interval: Option<int>,
    peers: Option<Seq<u8>>,
) -> Option<(int, Seq<u8>)>
    decreases data.len() - pos,
{
    if 0 <= pos < data.len() {
        if data[pos] == 101 {
            if pos + 1 == data.len() {
                match (interval, peers) {
                    (Some(iv), Some(s)) => Some((iv, s)),
                    _ => None,
                }
            } else {
                None
            }
        } else {
            match spec_parse_benbytes(data, pos) {
                Some((key, p1)) => match spec_parse_benvalue(data, p1) {
                    Some((value, p2)) => if pos < p2 <= data.len() {
                        if key == INTERVAL_NAME@ {
                            match (value, interval) {
                                (BenValue::Int(iv), None) => spec_walk_success(
                                    data,
                                    p2,
                                    Some(iv),
                                    peers,
                                ),
                                _ => None,
                            }
                        } else if key == PEERS_NAME@ {
                            match (value, peers) {
                                (BenValue::Bytes(s), None) => spec_walk_success(
                                    data,
                                    p2,
                                    interval,
                                    Some(s),
                                ),
                                _ => None,
                            }
                        } else {
                            spec_walk_success(data, p2, interval, peers)
                        }
                    } else {
                        None
                    },
                    None => None,
                },
                None => None,
            }
        }
    } else {
        None
    }
}

/// A successful answer: a dictionary holding an integer `interval` and a
/// byte-string `peers`, with any other flat entries ignored.
pub open spec fn spec_parse_success(data: Seq<u8>) -> Option<(int, Seq<u8>)> {
    if data.len() >= 1 && data[0] == 100 {
        spec_walk_success(data, 1, None, None)
    } else {
        None
    }
}

/// Walk a failing answer's dictionary entries from `pos`: a byte-string
/// `reason` exactly once, any other flat entries ignored.
pub open spec fn spec_walk_failure(data: Seq<u8>, pos: int, reason: Option<Seq<u8>>) -> Option<
    Seq<u8>,
>
    decreases data.len() - pos,
{
    if 0 <= pos < data.len() {
        if data[pos] == 101 {
            if pos + 1 == data.len() {
                reason
            } else {
                None
            }
        } else {
            match spec_parse_benbytes(data, pos) {
                Some((key, p1)) => match spec_parse_benvalue(data, p1) {
                    Some((value, p2)) => if pos < p2 <= data.len() {
                        if key == REASON_NAME@ {
                            match (value, reason) {
                                (BenValue::Bytes(s), None) => spec_walk_failure(
                                    data,
                                    p2,
                                    Some(s),
                                ),
                                _ => None,
                            }
                        } else {
                            spec_walk_failure(data, p2, reason)
                        }
                    } else {
                        None
                    },
                    None => None,
                },
                None => None,
            }
        }
    } else {
        None
    }
}

/// A failing answer: a dictionary holding a byte-string `reason`, with any
/// other flat entries ignored.
pub open spec fn spec_parse_failure(data: Seq<u8>) -> Option<Seq<u8>> {
    if data.len() >= 1 && data[0] == 100 {
        spec_walk_failure(data, 1, None)
    } else {
        None
    }
}

/// The peer at position `k` of a compact peer string: four address bytes,
/// then the port, big-endian.
pub open spec fn spec_peer_at(v: Seq<u8>, k: int) -> PeerAddr {
    PeerAddr {
        a: v[6 * k],
        b: v[6 * k + 1],
        c: v[6 * k + 2],
        d: v[6 * k + 3],
        port: (v[6 * k + 4] * 256 + v[6 * k + 5]) as u16,
    }
}

/// Cut a compact peer string into addresses: six bytes a peer. A length
/// that is not a multiple of six is refused.
pub fn parse_peer_list(v: &Vec<u8>) -> (r: Result<PeerList, TrackerError>)
    ensures
        match r {
            Ok(pl) => v@.len() % 6 == 0 && pl.0@.len() == v@.len() / 6 && forall|k: int|
                0 <= k < pl.0@.len() ==> pl.0@[k] == spec_peer_at(v@, k),
            Err(e) => e == TrackerError::BadPeerList && v@.len() % 6 != 0,
        },
{
    let v_len: usize = v.len();
    if v_len % 6 != 0 {
        return Err(TrackerError::BadPeerList);
    }
    let count: usize = v_len / 6;
    let mut out: Vec<PeerAddr> = Vec::new();
    let mut k: usize = 0;
    while k < count
        invariant
            k <= count,
            v@.len() == v_len,
            count == v_len / 6,
            v_len % 6 == 0,
            out@.len() == k,
            forall|x: int| 0 <= x < k ==> out@[x] == spec_peer_at(v@, x),
        decreases count - k,
    {
        proof {
            assert(6 * (k as int) + 6 <= 6 * (v_len as int / 6)) by (nonlinear_arith)
                requires
                    k as int + 1 <= v_len as int / 6,
            ;
            vstd::arithmetic::div_mod::lemma_fundamental_div_mod(v_len as int, 6);
        }
        let base: usize = 6 * k;
        let port: u16 = (v[base + 4] as u16) * 256 + (v[base + 5] as u16);
        out.push(
            PeerAddr { a: v[base], b: v[base + 1], c: v[base + 2], d: v[base + 3], port },
        );
        k = k + 1;
    }
    Ok(PeerList(out))
}

/// Read a successful tracker answer out of its bytes: the interval and the
/// peer list, with any other flat entries of the dictionary skipped.
pub fn parse_tracker_response(data: &Vec<u8>) -> (r: Result<TrackerResponse, TrackerError>)
    ensures
        match r {
            Ok(resp) => spec_parse_success(data@) matches Some(ivs) && resp.interval == ivs.0
                && ivs.1.len() % 6 == 0 && resp.peers.0@.len() == ivs.1.len() / 6 && forall|k: int|
                0 <= k < resp.peers.0@.len() ==> resp.peers.0@[k] == spec_peer_at(ivs.1, k),
            Err(TrackerError::BadPeerList) => spec_parse_success(data@) matches Some(ivs) && ivs.0
                <= usize::MAX && ivs.1.len() % 6 != 0,
            Err(TrackerError::Malformed) => spec_parse_success(data@) is None || (
            spec_parse_success(data@) matches Some(ivs) && ivs.0 > usize::MAX),
        },
{
    let data_len: usize = data.len();
    if data_len < 1 {
        return Err(TrackerError::Malformed);
    }
    let lead: u8 = data[0];
    if lead != 100 {
        return Err(TrackerError::Malformed);
    }
    let mut pos: usize = 1;
    let mut interval: Option<usize> = None;
    let mut interval_big: bool = false;
    let mut peers_bytes: Option<Vec<u8>> = None;
    let ghost mut g_interval: Option<int> = None;
    let ghost mut g_peers: Option<Seq<u8>> = None;
    loop
        invariant
            1 <= pos <= data_len,
            data@.len() == data_len,
            data@[0] == 100,
            spec_parse_success(data@) == spec_walk_success(
                data@,
                pos as int,
                g_interval,
                g_peers,
            ),
            interval matches Some(v) ==> g_interval == Some(v as int) && !interval_big,
            interval is None && !interval_big ==> g_interval is None,
            interval is None && interval_big ==> (g_interval matches Some(iv) && iv
                > usize::MAX),
            peers_bytes matches Some(pb) ==> g_peers == Some(pb@),
            peers_bytes is None ==> g_peers is None,
        decreases data_len - pos,
    {
        if pos >= data_len {
            return Err(TrackerError::Malformed);
        }
        let b: u8 = data[pos];
        if b == 101 {
            if pos + 1 != data_len {
                return Err(TrackerError::Malformed);
            }
            let iv: usize = match interval {
                Some(v) => v,
                None => {
                    return Err(TrackerError::Malformed);
                },
            };
            let pb: Vec<u8> = match peers_bytes {
                Some(v) => v,
                None => {
                    return Err(TrackerError::Malformed);
                },
            };
            return match parse_peer_list(&pb) {
                Ok(pl) => Ok(TrackerResponse { interval: iv, peers: pl }),
                Err(_) => Err(TrackerError::BadPeerList),
            };
        }
        let (kstart, klen): (usize, usize) = match parse_bytes_header(data, pos) {
            Some(sn) => sn,
            None => {
                return Err(TrackerError::Malformed);
            },
        };
        let p1: usize = kstart + klen;
        if region_matches(data, kstart, klen, &INTERVAL_NAME) {
            match parse_int_header(data, p1) {
                Some((v, end)) => {
                    if interval.is_some() || interval_big {
                        return Err(TrackerError::Malformed);
                    }
                    proof {
                        g_interval = Some(spec_parse_benint(data@, p1 as int).unwrap().0);
                    }
                    match v {
                        Some(x) => {
                            interval = Some(x);
                        },
                        None => {
                            interval_big = true;
                        },
                    }
                    pos = end;
                },
                None => {
                    return Err(TrackerError::Malformed);
                },
            }
        } else if region_matches(data, kstart, klen, &PEERS_NAME) {
            match parse_bytes_header(data, p1) {
                Some((vstart, vn)) => {
                    proof {
                        lemma_benbytes_not_int(data@, p1 as int);
                    }
                    if peers_bytes.is_some() {
                        return Err(TrackerError::Malformed);
                    }
                    let pb: Vec<u8> = copy_bytes(data, vstart, vn);
                    proof {
                        g_peers = Some(pb@);
                    }
                    peers_bytes = Some(pb);
                    pos = vstart + vn;
                },
                None => {
                    return Err(TrackerError::Malformed);
                },
            }
        } else {
            let end: usize = if p1 < data_len && data[p1] == 105 {
                match parse_int_header(data, p1) {
                    Some((_v, end)) => end,
                    None => {
                        return Err(TrackerError::Malformed);
                    },
                }
            } else {
                match parse_bytes_header(data, p1) {
                    Some((vstart, vn)) => {
                        proof {
                            lemma_benbytes_not_int(data@, p1 as int);
                        }
                        vstart + vn
                    },
                    None => {
                        return Err(TrackerError::Malformed);
                    },
                }
            };
            pos = end;
        }
    }
}

/// A position where a byte string parses does not hold an integer's lead
/// byte: the string's length digits stand there.
proof fn lemma_benbytes_not_int(data: Seq<u8>, pos: int)
    requires
        spec_parse_benbytes(data, pos) is Some,
    ensures
        0 <= pos < data.len() && spec_is_digit(data[pos]) && data[pos] != 105,
{
    let e = spec_run_end(data, pos);
    assert(e > pos);
    assert(spec_is_digit(data[pos])) by {
        assert(spec_run_end(data, pos) != pos);
    }
}

/// Read a failing tracker answer out of its bytes: the reason string, with
/// any other flat entries of the dictionary skipped.
pub fn parse_tracker_error(data: &Vec<u8>) -> (r: Result<TrackerResponseErr, TrackerError>)
    ensures
        match r {
            Ok(err) => spec_parse_failure(data@) matches Some(s) && ((forall|i: int|
                0 <= i < s.len() ==> s[i] < 128) ==> (err.reason@.len() == s.len() && forall|i: int|
                0 <= i < s.len() ==> err.reason@[i] == s[i] as char)),
            Err(e) => e == TrackerError::Malformed && spec_parse_failure(data@) is None,
        },
{
    let data_len: usize = data.len();
    if data_len < 1 {
        return Err(TrackerError::Malformed);
    }
    let lead: u8 = data[0];
    if lead != 100 {
        return Err(TrackerError::Malformed);
    }
    let mut pos: usize = 1;
    let mut reason_bytes: Option<Vec<u8>> = None;
    let ghost mut g_reason: Option<Seq<u8>> = None;
    loop
        invariant
            1 <= pos <= data_len,
            data@.len() == data_len,
            data@[0] == 100,
            spec_parse_failure(data@) == spec_walk_failure(data@, pos as int, g_reason),
            reason_bytes matches Some(rb) ==> g_reason == Some(rb@),
            reason_bytes is None ==> g_reason is None,
        decreases data_len - pos,
    {
        if pos >= data_len {
            return Err(TrackerError::Malformed);
        }
        let b: u8 = data[pos];
        if b == 101 {
            if pos + 1 != data_len {
                return Err(TrackerError::Malformed);
            }
            let rb: Vec<u8> = match reason_bytes {
                Some(v) => v,
                None => {
                    return Err(TrackerError::Malformed);
                },
            };
            let reason: String = bytes_to_string(&rb);
            return Ok(TrackerResponseErr { reason });
        }
        let (kstart, klen): (usize, usize) = match parse_bytes_header(data, pos) {
            Some(sn) => sn,
            None => {
                return Err(TrackerError::Malformed);
            },
        };
        let p1: usize = kstart + klen;
        if region_matches(data, kstart, klen, &REASON_NAME) {
            match parse_bytes_header(data, p1) {
                Some((vstart, vn)) => {
                    proof {
                        lemma_benbytes_not_int(data@, p1 as int);
                    }
                    if reason_bytes.is_some() {
                        return Err(TrackerError::Malformed);
                    }
                    let rb: Vec<u8> = copy_bytes(data, vstart, vn);
                    proof {
                        g_reason = Some(rb@);
                    }
                    reason_bytes = Some(rb);
                    pos = vstart + vn;
                },
                None => {
                    return Err(TrackerError::Malformed);
                },
            }
        } else {
            let end: usize = if p1 < data_len && data[p1] == 105 {
                match parse_int_header(data, p1) {
                    Some((_v, end)) => end,
                    None => {
                        return Err(TrackerError::Malformed);
                    },
                }
            } else {
                match parse_bytes_header(data, p1) {
                    Some((vstart, vn)) => {
                        proof {
                            lemma_benbytes_not_int(data@, p1 as int);
                        }
                        vstart + vn
                    },
                    None => {
                        return Err(TrackerError::Malformed);
                    },
                }
            };
            pos = end;
        }
    }
}

/// Relies on String::from_utf8_lossy: bytes below 128 decode to the very
/// same characters.
#[verifier::external_body]
fn bytes_to_string(v: &Vec<u8>) -> (r: String)
    ensures
        (forall|i: int| 0 <= i < v@.len() ==> v@[i] < 128) ==> (r@.len() == v@.len() && forall|
            i: int,
        | 0 <= i < v@.len() ==> r@[i] == v@[i] as char),
{
    String::from_utf8_lossy(v.as_slice()).into_owned()
}

/// The sixteen hexadecimal digits, lower case.
pub const HEX_LOWER: [char; 16] = [
    '0',
    '1',
    '2',
    '3',
    '4',
    '5',
    '6',
    '7',
    '8',
    '9',
    'a',
    'b',
    'c',
    'd',
    'e',
    'f',
];

/// Each byte as `%` and its two lower-case hex digits, unconditionally.
pub open spec fn spec_percent_encode(v: Seq<u8>) -> Seq<char>
    decreases v.len(),
{
    if v.len() == 0 {
        Seq::empty()
    } else {
        seq!['%', HEX_LOWER@[(v[0] >> 4) as int], HEX_LOWER@[(v[0] & 15) as int]]
            + spec_percent_encode(v.skip(1))
    }
}

/// Relies on String::push: appends one character.
#[verifier::external_body]
fn string_push(s: &mut String, c: char)
    ensures
        final(s)@ == old(s)@.push(c),
{
    s.push(c);
}

/// Relies on String::push_str: appends the string's characters.
#[verifier::external_body]
fn string_push_str(s: &mut String, t: &str)
    ensures
        final(s)@ == old(s)@ + t@,
{
    s.push_str(t);
}

/// Percent-encode a 20-byte id for the announce query: one `%hh` per byte,
/// every byte, lower-case hex.
pub fn url_encode(v: &[u8; 20]) -> (r: String)
    ensures
        r@ == spec_percent_encode(v@),
{
    let mut out: String = String::new();
    proof {
        assert(v@.skip(0) =~= v@);
    }
    let mut i: usize = 0;
    while i < 20
        invariant
            i <= 20,
            spec_percent_encode(v@) == out@ + spec_percent_encode(v@.skip(i as int)),
        decreases 20 - i,
    {
        let b: u8 = v[i];
        proof {
            assert((b >> 4) < 16 && (b & 15) < 16) by (bit_vector);
            assert(v@.skip(i as int)[0] == v@[i as int]);
            assert(v@.skip(i as int).skip(1) =~= v@.skip(i + 1));
        }
        string_push(&mut out, '%');
        string_push(&mut out, HEX_LOWER[(b >> 4) as usize]);
        string_push(&mut out, HEX_LOWER[(b & 15) as usize]);
        i = i + 1;
    }
    proof {
        assert(spec_percent_encode(v@.skip(20)).len() == 0);
        assert(out@ =~= out@ + spec_percent_encode(v@.skip(20)));
    }
    out
}

/// The ten decimal digits.
pub const DEC_DIGITS: [char; 10] = ['0', '1', '2', '3', '4', '5', '6', '7', '8', '9'];

/// The decimal digits of `n`, most significant first, no sign, no padding.
pub open spec fn spec_decimal(n: int) -> Seq<char>
    decreases n,
{
    if 0 <= n < 10 {
        seq![DEC_DIGITS@[n]]
    } else if n >= 10 {
        spec_decimal(n / 10) + seq![DEC_DIGITS@[n % 10]]
    } else {
        Seq::empty()
    }
}

/// Append the decimal digits of `n`.
fn push_decimal(s: &mut String, n: usize)
    ensures
        final(s)@ == old(s)@ + spec_decimal(n as int),
    decreases n,
{
    if n < 10 {
        string_push(s, DEC_DIGITS[n]);
    } else {
        push_decimal(s, n / 10);
        string_push(s, DEC_DIGITS[n % 10]);
    }
}

/// The full announce URL: the tracker's announce address, the query
/// parameters in their fixed order, and the two ids percent-encoded.
pub open spec fn spec_announce_url(
    announce: Seq<char>,
    req: TrackerRequest,
    info_hash: Seq<u8>,
    peer_id: Seq<u8>,
) -> Seq<char> {
    announce + "?port="@ + spec_decimal(req.port as int) + "&uploaded="@ + spec_decimal(
        req.uploaded as int,
    ) + "&downloaded="@ + spec_decimal(req.downloaded as int) + "&left="@ + spec_decimal(
        req.left as int,
    ) + "&compact="@ + spec_decimal(req.compact as int) + "&info_hash="@ + spec_percent_encode(
        info_hash,
    ) + "&peer_id="@ + spec_percent_encode(peer_id)
}

/// Assemble the GET target for one announce.
pub fn build_announce_url(
    announce: &String,
    req: &TrackerRequest,
    info_hash: &[u8; 20],
    peer_id: &[u8; 20],
) -> (r: String)
    ensures
        r@ == spec_announce_url(announce@, *req, info_hash@, peer_id@),
{
    let mut url: String = announce.clone();
    string_push_str(&mut url, "?port=");
    push_decimal(&mut url, req.port as usize);
    string_push_str(&mut url, "&uploaded=");
    push_decimal(&mut url, req.uploaded);
    string_push_str(&mut url, "&downloaded=");
    push_decimal(&mut url, req.downloaded);
    string_push_str(&mut url, "&left=");
    push_decimal(&mut url, req.left);
    string_push_str(&mut url, "&compact=");
    push_decimal(&mut url, req.compact as usize);
    string_push_str(&mut url, "&info_hash=");
    let enc_hash: String = url_encode(info_hash);
    string_push_str(&mut url, enc_hash.as_str());
    string_push_str(&mut url, "&peer_id=");
    let enc_id: String = url_encode(peer_id);
    string_push_str(&mut url, enc_id.as_str());
    url
}

/// The announce schedule: wait `interval` seconds after a success, and on
/// failures retry after a backoff that starts at one second and doubles.
pub struct HeartbeatState {
    pub interval: u64,
    pub backoff: u64,
}

impl HeartbeatState {
    /// Before the first announce: no wait, backoff at one second.
    pub fn new() -> (r: HeartbeatState)
        ensures
            r.interval == 0,
            r.backoff == 1,
    {
        HeartbeatState { interval: 0, backoff: 1 }
    }

    /// Account one announce's outcome and say how long to sleep before the
    /// next try. A success adopts the tracker's interval and resets the
    /// backoff; a failure waits out the current backoff and doubles it,
    /// saturating rather than overflowing.
    pub fn step(&mut self, outcome: Option<u64>) -> (sleep: u64)
        ensures
            match outcome {
                Some(interval) => final(self).interval == interval && final(self).backoff == 1
                    && sleep == interval,
                None => final(self).interval == old(self).interval && sleep == old(self).backoff
                    && final(self).backoff == if old(self).backoff <= u64::MAX / 2 {
                    2 * old(self).backoff
                } else {
                    u64::MAX as int
                },
            },
    {
        match outcome {
            Some(interval) => {
                self.interval = interval;
                self.backoff = 1;
                interval
            },
            None => {
                let sleep: u64 = self.backoff;
                if self.backoff <= u64::MAX / 2 {
                    self.backoff = 2 * self.backoff;
                } else {
                    self.backoff = u64::MAX;
                }
                sleep
            },
        }
    }
}

/// The bytes of `src` from `start`, `len` of them.
pub(crate) fn copy_bytes(src: &Vec<u8>, start: usize, len: usize) -> (r: Vec<u8>)
    requires
        start + len <= src@.len(),
    ensures
        r@ == src@.subrange(start as int, start as int + len),
{
    let src_len: usize = src.len();
    let mut out: Vec<u8> = Vec::new();
    let mut i: usize = 0;
    while i < len
        invariant
            i <= len,
            start + len <= src_len,
            src@.len() == src_len,
            out@ == src@.subrange(start as int, start as int + i),
        decreases len - i,
    {
        let b: u8 = src[start + i];
        out.push(b);
        assert(out@ =~= src@.subrange(start as int, start as int + i + 1));
        i = i + 1;
    }
    out
}

} // verus!

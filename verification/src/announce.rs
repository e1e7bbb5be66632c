//! The announce query as the tracker side reads it: percent-decoding of the
//! two 20-byte ids, and the query string cut at `&` and `=` into the seven
//! known parameters, each validated exactly.

use vstd::prelude::*;
use crate::tracker::{spec_digits_val, spec_is_digit, spec_run_end};

verus! {

/// What spoils an announce query.
#[derive(Clone, Copy, Debug, PartialEq, Eq, Structural)]
pub enum QueryError {
    /// A pair has no `=`.
    MissingValue,
    /// A known key's value does not parse or is out of range.
    InvalidValue,
    /// A key outside the seven known ones.
    UnknownKey,
    /// A known key never appeared.
    MissingParam,
}

/// The seven announce parameters, decoded and validated.
#[derive(Debug)]
pub struct AnnounceParams {
    pub info_hash: [u8; 20],
    pub peer_id: [u8; 20],
    pub port: u16,
    pub uploaded: usize,
    pub downloaded: usize,
    pub left: usize,
    pub compact: u8,
}

/// The value of a hexadecimal digit byte, or -1.
pub open spec fn spec_hex_val(b: u8) -> int {
    if 48 <= b <= 57 {
        b - 48
    } else if 97 <= b <= 102 {
        b - 87
    } else if 65 <= b <= 70 {
        b - 55
    } else {
        -1
    }
}

pub open spec fn spec_is_hex(b: u8) -> bool {
    spec_hex_val(b) >= 0
}

/// Percent-decoding as the announce handler reads it: `%` followed by two
/// hex digits becomes one byte; a `%` not so followed passes through as
/// itself, and so does every other byte.
pub open spec fn spec_percent_decode(v: Seq<u8>) -> Seq<u8>
    decreases v.len(),
{
    if v.len() == 0 {
        Seq::empty()
    } else if v[0] == 37 && v.len() >= 3 && spec_is_hex(v[1]) && spec_is_hex(v[2]) {
        seq![(spec_hex_val(v[1]) * 16 + spec_hex_val(v[2])) as u8] + spec_percent_decode(v.skip(3))
    } else {
        seq![v[0]] + spec_percent_decode(v.skip(1))
    }
}

/// The value of two hex digit bytes, or nothing if either is no hex digit.
pub fn parse_hex(a: u8, b: u8) -> (r: Option<u8>)
    ensures
        match r {
            Some(x) => spec_is_hex(a) && spec_is_hex(b) && x == spec_hex_val(a) * 16
                + spec_hex_val(b),
            None => !(spec_is_hex(a) && spec_is_hex(b)),
        },
{
    let av: i32 = if 48 <= a && a <= 57 {
        a as i32 - 48
    } else if 97 <= a && a <= 102 {
        a as i32 - 87
    } else if 65 <= a && a <= 70 {
        a as i32 - 55
    } else {
        -1
    };
    let bv: i32 = if 48 <= b && b <= 57 {
        b as i32 - 48
    } else if 97 <= b && b <= 102 {
        b as i32 - 87
    } else if 65 <= b && b <= 70 {
        b as i32 - 55
    } else {
        -1
    };
    if av < 0 || bv < 0 {
        return None;
    }
    Some((av * 16 + bv) as u8)
}

/// The percent-decoded form of a query value.
pub struct PercentDecoder {
    decoded: Vec<u8>,
}

impl PercentDecoder {
    pub closed spec fn spec_bytes(&self) -> Seq<u8> {
        self.decoded@
    }

    /// The decoded bytes.
    pub fn bytes(&self) -> (r: &Vec<u8>)
        ensures
            r@ == self.spec_bytes(),
    {
        &self.decoded
    }

    /// The decoded bytes, owned.
    pub fn into_bytes(self) -> (r: Vec<u8>)
        ensures
            r@ == self.spec_bytes(),
    {
        self.decoded
    }
}

/// Percent-decode `input` in one pass.
pub fn percent_decode(input: &Vec<u8>) -> (r: PercentDecoder)
    ensures
        r.spec_bytes() == spec_percent_decode(input@),
{
    let input_len: usize = input.len();
    let mut out: Vec<u8> = Vec::new();
    let mut i: usize = 0;
    proof {
        assert(input@.skip(0) =~= input@);
    }
    while i < input_len
        invariant
            i <= input_len,
            input@.len() == input_len,
            spec_percent_decode(input@) == out@ + spec_percent_decode(input@.skip(i as int)),
        decreases input_len - i,
    {
        let b: u8 = input[i];
        proof {
            assert(input@.skip(i as int)[0] == input@[i as int]);
        }
        if b == 37 && input_len - i > 2 {
            proof {
                assert(input@.skip(i as int)[1] == input@[i + 1]);
                assert(input@.skip(i as int)[2] == input@[i + 2]);
            }
            match parse_hex(input[i + 1], input[i + 2]) {
                Some(x) => {
                    proof {
                        assert(input@.skip(i as int).skip(3) =~= input@.skip(i + 3));
                    }
                    out.push(x);
                    i = i + 3;
                },
                None => {
                    proof {
                        assert(input@.skip(i as int).skip(1) =~= input@.skip(i + 1));
                    }
                    out.push(b);
                    i = i + 1;
                },
            }
        } else {
            proof {
                assert(input@.skip(i as int).skip(1) =~= input@.skip(i + 1));
                if b == 37 && input@.skip(i as int).len() >= 3 {
                    assert(i + 2 < input_len);
                }
            }
            out.push(b);
            i = i + 1;
        }
    }
    proof {
        assert(spec_percent_decode(input@.skip(input_len as int)).len() == 0);
        assert(out@ =~= out@ + spec_percent_decode(input@.skip(input_len as int)));
    }
    PercentDecoder { decoded: out }
}

/// The first position at or after `from` holding byte `b`, or the length.
pub open spec fn spec_find(v: Seq<u8>, b: u8, from: int) -> int
    decreases v.len() - from,
{
    if 0 <= from < v.len() {
        if v[from] == b {
            from
        } else {
            spec_find(v, b, from + 1)
        }
    } else {
        from
    }
}

proof fn lemma_find_bounds(v: Seq<u8>, b: u8, from: int)
    requires
        0 <= from <= v.len(),
    ensures
        from <= spec_find(v, b, from) <= v.len(),
        forall|k: int| from <= k < spec_find(v, b, from) ==> v[k] != b,
        spec_find(v, b, from) == v.len() || v[spec_find(v, b, from)] == b,
    decreases v.len() - from,
{
    if from < v.len() && v[from] != b {
        lemma_find_bounds(v, b, from + 1);
    }
}

/// The query split at `&`, as `str::split` cuts it: empty segments kept.
pub open spec fn spec_split_amp(v: Seq<u8>) -> Seq<Seq<u8>>
    decreases v.len(),
{
    let k = spec_find(v, 38, 0);
    if 0 <= k < v.len() {
        seq![v.subrange(0, k)] + spec_split_amp(v.skip(k + 1))
    } else {
        seq![v]
    }
}

/// A numeric field: at least one digit and nothing else.
pub open spec fn spec_num(v: Seq<u8>) -> Option<int> {
    if v.len() > 0 && spec_run_end(v, 0) == v.len() {
        Some(spec_digits_val(v, 0, v.len() as int))
    } else {
        None
    }
}

/// The running state of the fold over the query's pairs.
pub struct QueryAcc {
    pub info_hash: Option<Seq<u8>>,
    pub peer_id: Option<Seq<u8>>,
    pub port: Option<int>,
    pub uploaded: Option<int>,
    pub downloaded: Option<int>,
    pub left: Option<int>,
    pub compact: Option<int>,
}

/// `info_hash`
pub const KEY_INFO_HASH: [u8; 9] = [105, 110, 102, 111, 95, 104, 97, 115, 104];

/// `peer_id`
pub const KEY_PEER_ID: [u8; 7] = [112, 101, 101, 114, 95, 105, 100];

/// `port`
pub const KEY_PORT: [u8; 4] = [112, 111, 114, 116];

/// `uploaded`
pub const KEY_UPLOADED: [u8; 8] = [117, 112, 108, 111, 97, 100, 101, 100];

/// `downloaded`
pub const KEY_DOWNLOADED: [u8; 10] = [100, 111, 119, 110, 108, 111, 97, 100, 101, 100];

/// `left`
pub const KEY_LEFT: [u8; 4] = [108, 101, 102, 116];

/// `compact`
pub const KEY_COMPACT: [u8; 7] = [99, 111, 109, 112, 97, 99, 116];

/// Apply one `key=value` pair to the running state: the key must be one of
/// the seven, the value must parse and fit, and a later pair overwrites an
/// earlier one. The value runs from the first `=` to the next `=` or the
/// end; a pair without `=` fails.
pub open spec fn spec_apply_pair(acc: QueryAcc, pair: Seq<u8>) -> Result<QueryAcc, QueryError> {
    let k = spec_find(pair, 61, 0);
    if k == pair.len() {
        Err(QueryError::MissingValue)
    } else {
        let key = pair.subrange(0, k);
        let vend = spec_find(pair, 61, k + 1);
        let value = pair.subrange(k + 1, vend);
        if key == KEY_INFO_HASH@ {
            let dec = spec_percent_decode(value);
            if dec.len() == 20 {
                Ok(QueryAcc { info_hash: Some(dec), ..acc })
            } else {
                Err(QueryError::InvalidValue)
            }
        } else if key == KEY_PEER_ID@ {
            let dec = spec_percent_decode(value);
            if dec.len() == 20 {
                Ok(QueryAcc { peer_id: Some(dec), ..acc })
            } else {
                Err(QueryError::InvalidValue)
            }
        } else if key == KEY_PORT@ {
            match spec_num(value) {
                Some(n) => if n <= u16::MAX {
                    Ok(QueryAcc { port: Some(n), ..acc })
                } else {
                    Err(QueryError::InvalidValue)
                },
                None => Err(QueryError::InvalidValue),
            }
        } else if key == KEY_UPLOADED@ {
            match spec_num(value) {
                Some(n) => if n <= usize::MAX {
                    Ok(QueryAcc { uploaded: Some(n), ..acc })
                } else {
                    Err(QueryError::InvalidValue)
                },
                None => Err(QueryError::InvalidValue),
            }
        } else if key == KEY_DOWNLOADED@ {
            match spec_num(value) {
                Some(n) => if n <= usize::MAX {
                    Ok(QueryAcc { downloaded: Some(n), ..acc })
                } else {
                    Err(QueryError::InvalidValue)
                },
                None => Err(QueryError::InvalidValue),
            }
        } else if key == KEY_LEFT@ {
            match spec_num(value) {
                Some(n) => if n <= usize::MAX {
                    Ok(QueryAcc { left: Some(n), ..acc })
                } else {
                    Err(QueryError::InvalidValue)
                },
                None => Err(QueryError::InvalidValue),
            }
        } else if key == KEY_COMPACT@ {
            match spec_num(value) {
                Some(n) => if n <= u8::MAX {
                    Ok(QueryAcc { compact: Some(n), ..acc })
                } else {
                    Err(QueryError::InvalidValue)
                },
                None => Err(QueryError::InvalidValue),
            }
        } else {
            Err(QueryError::UnknownKey)
        }
    }
}

/// Fold the pairs from `i` on; the first fault wins.
pub open spec fn spec_fold_pairs(acc: QueryAcc, pairs: Seq<Seq<u8>>, i: int) -> Result<
    QueryAcc,
    QueryError,
>
    decreases pairs.len() - i,
{
    if i < 0 || i >= pairs.len() {
        Ok(acc)
    } else {
        match spec_apply_pair(acc, pairs[i]) {
            Ok(next) => spec_fold_pairs(next, pairs, i + 1),
            Err(e) => Err(e),
        }
    }
}

pub open spec fn spec_empty_acc() -> QueryAcc {
    QueryAcc {
        info_hash: None,
        peer_id: None,
        port: None,
        uploaded: None,
        downloaded: None,
        left: None,
        compact: None,
    }
}

/// The whole query's outcome over the spec mirror.
pub open spec fn spec_parse_query(v: Seq<u8>) -> Result<QueryAcc, QueryError> {
    spec_fold_pairs(spec_empty_acc(), spec_split_amp(v), 0)
}

/// The first position at or after `from` holding `b`, or the length.
fn find_byte(v: &Vec<u8>, b: u8, from: usize) -> (r: usize)
    requires
        from <= v@.len(),
    ensures
        r == spec_find(v@, b, from as int),
        from <= r <= v@.len(),
        r < v@.len() ==> v@[r as int] == b,
        forall|k: int| from <= k < r ==> v@[k] != b,
{
    let v_len: usize = v.len();
    let mut i: usize = from;
    while i < v_len
        invariant
            from <= i <= v_len,
            v@.len() == v_len,
            spec_find(v@, b, from as int) == spec_find(v@, b, i as int),
            forall|k: int| from <= k < i ==> v@[k] != b,
        decreases v_len - i,
    {
        if v[i] == b {
            return i;
        }
        i = i + 1;
    }
    v_len
}

/// The query cut at every `&`, empty segments kept.
fn split_amp(v: &Vec<u8>) -> (r: Vec<Vec<u8>>)
    ensures
        r@.len() == spec_split_amp(v@).len(),
        forall|i: int| 0 <= i < r@.len() ==> (#[trigger] r@[i])@ == spec_split_amp(v@)[i],
    decreases v@.len(),
{
    let v_len: usize = v.len();
    let k: usize = find_byte(v, 38, 0);
    if k == v_len {
        let whole: Vec<u8> = crate::tracker::copy_bytes(v, 0, v_len);
        proof {
            assert(whole@ =~= v@);
        }
        let mut out: Vec<Vec<u8>> = Vec::new();
        out.push(whole);
        out
    } else {
        let prefix: Vec<u8> = crate::tracker::copy_bytes(v, 0, k);
        let rest: Vec<u8> = crate::tracker::copy_bytes(v, k + 1, v_len - (k + 1));
        proof {
            assert(rest@ =~= v@.skip(k + 1));
        }
        let mut tail: Vec<Vec<u8>> = split_amp(&rest);
        let ghost tail_view: Seq<Vec<u8>> = tail@;
        let mut out: Vec<Vec<u8>> = Vec::new();
        out.push(prefix);
        out.append(&mut tail);
        proof {
            assert forall|i: int|
                0 <= i < out@.len() implies (#[trigger] out@[i])@ == spec_split_amp(v@)[i] by {
                if i > 0 {
                    assert(out@[i] == tail_view[i - 1]);
                    assert(spec_split_amp(v@)[i] == spec_split_amp(rest@)[i - 1]);
                }
            }
        }
        out
    }
}

/// Whether the pair's key — its first `k` bytes — is exactly `pat`.
fn key_matches<const N: usize>(pair: &Vec<u8>, k: usize, pat: &[u8; N]) -> (r: bool)
    requires
        k <= pair@.len(),
    ensures
        r == (pair@.subrange(0, k as int) == pat@),
{
    if k != N {
        assert(pair@.subrange(0, k as int) != pat@) by {
            assert(pair@.subrange(0, k as int).len() != pat@.len());
        }
        return false;
    }
    let mut i: usize = 0;
    while i < N
        invariant
            i <= N,
            k == N <= pair@.len(),
            forall|j: int| 0 <= j < i ==> pair@[j] == pat@[j],
        decreases N - i,
    {
        if pair[i] != pat[i] {
            assert(pair@.subrange(0, k as int) != pat@) by {
                assert(pair@.subrange(0, k as int)[i as int] != pat@[i as int]);
            }
            return false;
        }
        i = i + 1;
    }
    assert(pair@.subrange(0, k as int) =~= pat@);
    true
}

/// A numeric field's machine value, when it has one and it fits.
fn parse_num(v: &Vec<u8>) -> (r: Option<usize>)
    ensures
        match r {
            Some(n) => spec_num(v@) == Some(n as int),
            None => spec_num(v@) is None || (spec_num(v@) matches Some(m) && m > usize::MAX),
        },
{
    if v.len() == 0 {
        return None;
    }
    match crate::tracker::scan_number(v, 0) {
        Some((val, end)) => {
            if end == v.len() {
                Some(val)
            } else {
                None
            }
        },
        None => None,
    }
}

/// The 20 bytes of `v` as an array.
fn to_array20(v: &Vec<u8>) -> (r: [u8; 20])
    requires
        v@.len() == 20,
    ensures
        r@ == v@,
{
    let mut out: [u8; 20] = [0u8; 20];
    let mut i: usize = 0;
    while i < 20
        invariant
            i <= 20,
            v@.len() == 20,
            forall|j: int| 0 <= j < i ==> out@[j] == v@[j],
        decreases 20 - i,
    {
        out[i] = v[i];
        i = i + 1;
    }
    proof {
        assert(out@ =~= v@);
    }
    out
}

/// Read the seven announce parameters out of a query string. The pairs are
/// processed left to right, a later pair overwriting an earlier one; the
/// first malformed pair or unknown key fails the query, and so does any of
/// the seven keys never appearing.
pub fn parse_query(query: &Vec<u8>) -> (r: Result<AnnounceParams, QueryError>)
    ensures
        match r {
            Ok(p) => spec_parse_query(query@) matches Ok(acc) && acc.info_hash == Some(
                p.info_hash@,
            ) && acc.peer_id == Some(p.peer_id@) && acc.port == Some(p.port as int) && acc.uploaded
                == Some(p.uploaded as int) && acc.downloaded == Some(p.downloaded as int)
                && acc.left == Some(p.left as int) && acc.compact == Some(p.compact as int),
            Err(e) => (spec_parse_query(query@) matches Err(e2) && e == e2) || (spec_parse_query(
                query@,
            ) matches Ok(acc) && e == QueryError::MissingParam && (acc.info_hash is None
                || acc.peer_id is None || acc.port is None || acc.uploaded is None
                || acc.downloaded is None || acc.left is None || acc.compact is None)),
        },
{
    let pairs: Vec<Vec<u8>> = split_amp(query);
    let ghost spec_pairs: Seq<Seq<u8>> = spec_split_amp(query@);
    let mut info_hash: Option<Vec<u8>> = None;
    let mut peer_id: Option<Vec<u8>> = None;
    let mut port: Option<u16> = None;
    let mut uploaded: Option<usize> = None;
    let mut downloaded: Option<usize> = None;
    let mut left: Option<usize> = None;
    let mut compact: Option<u8> = None;
    let ghost mut gacc: QueryAcc = spec_empty_acc();
    let mut i: usize = 0;
    while i < pairs.len()
        invariant
            i <= pairs@.len(),
            spec_pairs == spec_split_amp(query@),
            pairs@.len() == spec_pairs.len(),
            forall|x: int| 0 <= x < pairs@.len() ==> (#[trigger] pairs@[x])@ == spec_pairs[x],
            spec_fold_pairs(spec_empty_acc(), spec_pairs, 0) == spec_fold_pairs(
                gacc,
                spec_pairs,
                i as int,
            ),
            gacc.info_hash == (match info_hash {
                Some(h) => Some(h@),
                None => None::<Seq<u8>>,
            }),
            gacc.peer_id == (match peer_id {
                Some(h) => Some(h@),
                None => None::<Seq<u8>>,
            }),
            gacc.port == (match port {
                Some(x) => Some(x as int),
                None => None::<int>,
            }),
            gacc.uploaded == (match uploaded {
                Some(x) => Some(x as int),
                None => None::<int>,
            }),
            gacc.downloaded == (match downloaded {
                Some(x) => Some(x as int),
                None => None::<int>,
            }),
            gacc.left == (match left {
                Some(x) => Some(x as int),
                None => None::<int>,
            }),
            gacc.compact == (match compact {
                Some(x) => Some(x as int),
                None => None::<int>,
            }),
            info_hash matches Some(h) ==> h@.len() == 20,
            peer_id matches Some(h) ==> h@.len() == 20,
        decreases pairs@.len() - i,
    {
        let pair: &Vec<u8> = &pairs[i];
        let pair_len: usize = pair.len();
        let k: usize = find_byte(pair, 61, 0);
        if k == pair_len {
            assert(spec_apply_pair(gacc, spec_pairs[i as int]) == Err::<QueryAcc, QueryError>(
                QueryError::MissingValue,
            ));
            return Err(QueryError::MissingValue);
        }
        let vend: usize = find_byte(pair, 61, k + 1);
        let value: Vec<u8> = crate::tracker::copy_bytes(pair, k + 1, vend - (k + 1));
        assert(value@ =~= pair@.subrange(k + 1, vend as int));
        let ghost key_spec: Seq<u8> = pair@.subrange(0, k as int);
        if key_matches(pair, k, &KEY_INFO_HASH) {
            let dec: PercentDecoder = percent_decode(&value);
            if dec.bytes().len() != 20 {
                return Err(QueryError::InvalidValue);
            }
            proof {
                gacc = QueryAcc { info_hash: Some(dec.spec_bytes()), ..gacc };
            }
            info_hash = Some(dec.into_bytes());
        } else if key_matches(pair, k, &KEY_PEER_ID) {
            let dec: PercentDecoder = percent_decode(&value);
            if dec.bytes().len() != 20 {
                return Err(QueryError::InvalidValue);
            }
            proof {
                gacc = QueryAcc { peer_id: Some(dec.spec_bytes()), ..gacc };
            }
            peer_id = Some(dec.into_bytes());
        } else if key_matches(pair, k, &KEY_PORT) {
            match parse_num(&value) {
                Some(n) if n <= 65535 => {
                    proof {
                        gacc = QueryAcc { port: Some(n as int), ..gacc };
                    }
                    port = Some(n as u16);
                },
                _ => {
                    return Err(QueryError::InvalidValue);
                },
            }
        } else if key_matches(pair, k, &KEY_UPLOADED) {
            match parse_num(&value) {
                Some(n) => {
                    proof {
                        gacc = QueryAcc { uploaded: Some(n as int), ..gacc };
                    }
                    uploaded = Some(n);
                },
                None => {
                    return Err(QueryError::InvalidValue);
                },
            }
        } else if key_matches(pair, k, &KEY_DOWNLOADED) {
            match parse_num(&value) {
                Some(n) => {
                    proof {
                        gacc = QueryAcc { downloaded: Some(n as int), ..gacc };
                    }
                    downloaded = Some(n);
                },
                None => {
                    return Err(QueryError::InvalidValue);
                },
            }
        } else if key_matches(pair, k, &KEY_LEFT) {
            match parse_num(&value) {
                Some(n) => {
                    proof {
                        gacc = QueryAcc { left: Some(n as int), ..gacc };
                    }
                    left = Some(n);
                },
                None => {
                    return Err(QueryError::InvalidValue);
                },
            }
        } else if key_matches(pair, k, &KEY_COMPACT) {
            match parse_num(&value) {
                Some(n) if n <= 255 => {
                    proof {
                        gacc = QueryAcc { compact: Some(n as int), ..gacc };
                    }
                    compact = Some(n as u8);
                },
                _ => {
                    return Err(QueryError::InvalidValue);
                },
            }
        } else {
            assert(spec_apply_pair(gacc, spec_pairs[i as int]) == Err::<QueryAcc, QueryError>(
                QueryError::UnknownKey,
            ));
            return Err(QueryError::UnknownKey);
        }
        i = i + 1;
    }
    let info_hash_v: Vec<u8> = match info_hash {
        Some(v) => v,
        None => {
            return Err(QueryError::MissingParam);
        },
    };
    let peer_id_v: Vec<u8> = match peer_id {
        Some(v) => v,
        None => {
            return Err(QueryError::MissingParam);
        },
    };
    let port_v: u16 = match port {
        Some(v) => v,
        None => {
            return Err(QueryError::MissingParam);
        },
    };
    let uploaded_v: usize = match uploaded {
        Some(v) => v,
        None => {
            return Err(QueryError::MissingParam);
        },
    };
    let downloaded_v: usize = match downloaded {
        Some(v) => v,
        None => {
            return Err(QueryError::MissingParam);
        },
    };
    let left_v: usize = match left {
        Some(v) => v,
        None => {
            return Err(QueryError::MissingParam);
        },
    };
    let compact_v: u8 = match compact {
        Some(v) => v,
        None => {
            return Err(QueryError::MissingParam);
        },
    };
    Ok(
        AnnounceParams {
            info_hash: to_array20(&info_hash_v),
            peer_id: to_array20(&peer_id_v),
            port: port_v,
            uploaded: uploaded_v,
            downloaded: downloaded_v,
            left: left_v,
            compact: compact_v,
        },
    )
}

} // verus!

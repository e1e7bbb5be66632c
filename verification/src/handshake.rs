//! The 68-byte handshake that opens every peer connection: a length prefix,
//! the protocol name, eight reserved bytes, the info-hash and the peer id.

use vstd::prelude::*;

verus! {

/// The 19 bytes of the protocol name, "BitTorrent protocol".
pub const PROTOCOL_NAME: [u8; 19] = [
    66,
    105,
    116,
    84,
    111,
    114,
    114,
    101,
    110,
    116,
    32,
    112,
    114,
    111,
    116,
    111,
    99,
    111,
    108,
];

/// The whole handshake frame is 68 bytes long.
pub const HANDSHAKE_LEN: usize = 68;

/// The fields of a handshake frame, in wire order.
#[derive(Clone, Debug)]
pub struct Handshake {
    pub length: u8,
    pub bittorrent: [u8; 19],
    pub reserved: [u8; 8],
    pub info_hash: [u8; 20],
    pub peer_id: [u8; 20],
}

/// The 68 bytes a handshake is written as: each field in order, no padding.
pub open spec fn spec_handshake_bytes(h: Handshake) -> Seq<u8> {
    seq![h.length] + h.bittorrent@ + h.reserved@ + h.info_hash@ + h.peer_id@
}

/// A handshake frame is well formed when its prefix and protocol name are
/// the fixed ones; the reserved bytes and the two ids carry any value.
pub open spec fn spec_handshake_valid(h: Handshake) -> bool {
    h.length == 19 && h.bittorrent@ == PROTOCOL_NAME@
}

impl Handshake {
    /// The frame the local side opens with: fixed prefix and protocol name,
    /// zero reserved bytes, and the given info-hash and peer id.
    pub fn new(info_hash: [u8; 20], peer_id: [u8; 20]) -> (r: Handshake)
        ensures
            r.length == 19,
            r.bittorrent@ == PROTOCOL_NAME@,
            r.reserved@ == seq![0u8; 8],
            r.info_hash == info_hash,
            r.peer_id == peer_id,
            spec_handshake_valid(r),
    {
        let r = Handshake {
            length: 19,
            bittorrent: PROTOCOL_NAME,
            reserved: [0u8, 0u8, 0u8, 0u8, 0u8, 0u8, 0u8, 0u8],
            info_hash,
            peer_id,
        };
        assert(r.reserved@ =~= seq![0u8; 8]);
        r
    }

    /// The 68 bytes of this frame, field by field.
    pub fn to_bytes(&self) -> (r: Vec<u8>)
        ensures
            r@ == spec_handshake_bytes(*self),
            r@.len() == HANDSHAKE_LEN,
    {
        let mut out: Vec<u8> = Vec::new();
        out.push(self.length);
        push_array_19(&mut out, &self.bittorrent);
        push_array_8(&mut out, &self.reserved);
        push_array_20(&mut out, &self.info_hash);
        push_array_20(&mut out, &self.peer_id);
        assert(out@ =~= spec_handshake_bytes(*self));
        out
    }

    /// Read a handshake frame back out of 68 bytes and check it: the length
    /// prefix must be 19 and the protocol name the fixed one; any other
    /// frame, and any other byte count, fails the session.
    pub fn parse(data: &Vec<u8>) -> (r: Option<Handshake>)
        ensures
            match r {
                Some(h) => data@.len() == HANDSHAKE_LEN && spec_handshake_bytes(h) == data@
                    && spec_handshake_valid(h),
                None => !(data@.len() == HANDSHAKE_LEN && data@[0] == 19 && data@.subrange(1, 20)
                    == PROTOCOL_NAME@),
            },
    {
        if data.len() != HANDSHAKE_LEN {
            return None;
        }
        let length: u8 = data[0];
        if length != 19 {
            return None;
        }
        let mut bittorrent: [u8; 19] = [0u8; 19];
        let mut i: usize = 0;
        while i < 19
            invariant
                i <= 19,
                data@.len() == 68,
                forall|j: int| 0 <= j < i ==> bittorrent@[j] == data@[1 + j],
            decreases 19 - i,
        {
            bittorrent = array_set_19(bittorrent, i, data[1 + i]);
            i = i + 1;
        }
        let mut ok: bool = true;
        let mut k: usize = 0;
        while k < 19
            invariant
                k <= 19,
                forall|j: int| 0 <= j < 19 ==> bittorrent@[j] == data@[1 + j],
                ok == (forall|j: int| 0 <= j < k ==> bittorrent@[j] == PROTOCOL_NAME@[j]),
            decreases 19 - k,
        {
            if bittorrent[k] != PROTOCOL_NAME[k] {
                ok = false;
            }
            k = k + 1;
        }
        if !ok {
            assert(bittorrent@ != PROTOCOL_NAME@ && exists|j: int|
                0 <= j < 19 && data@.subrange(1, 20)[j] != PROTOCOL_NAME@[j]);
            return None;
        }
        assert(bittorrent@ =~= PROTOCOL_NAME@);
        let mut reserved: [u8; 8] = [0u8; 8];
        let mut a: usize = 0;
        while a < 8
            invariant
                a <= 8,
                data@.len() == 68,
                forall|j: int| 0 <= j < a ==> reserved@[j] == data@[20 + j],
            decreases 8 - a,
        {
            reserved = array_set_8(reserved, a, data[20 + a]);
            a = a + 1;
        }
        let mut info_hash: [u8; 20] = [0u8; 20];
        let mut b: usize = 0;
        while b < 20
            invariant
                b <= 20,
                data@.len() == 68,
                forall|j: int| 0 <= j < b ==> info_hash@[j] == data@[28 + j],
            decreases 20 - b,
        {
            info_hash = array_set_20(info_hash, b, data[28 + b]);
            b = b + 1;
        }
        let mut peer_id: [u8; 20] = [0u8; 20];
        let mut c: usize = 0;
        while c < 20
            invariant
                c <= 20,
                data@.len() == 68,
                forall|j: int| 0 <= j < c ==> peer_id@[j] == data@[48 + j],
            decreases 20 - c,
        {
            peer_id = array_set_20(peer_id, c, data[48 + c]);
            c = c + 1;
        }
        let h = Handshake { length, bittorrent, reserved, info_hash, peer_id };
        assert(spec_handshake_bytes(h) =~= data@);
        Some(h)
    }
}

fn push_array_8(out: &mut Vec<u8>, a: &[u8; 8])
    ensures
        final(out)@ == old(out)@ + a@,
{
    let mut i: usize = 0;
    while i < 8
        invariant
            i <= 8,
            out@ == old(out)@ + a@.subrange(0, i as int),
        decreases 8 - i,
    {
        out.push(a[i]);
        assert(out@ =~= old(out)@ + a@.subrange(0, i + 1));
        i = i + 1;
    }
    assert(final(out)@ =~= old(out)@ + a@);
}

fn push_array_19(out: &mut Vec<u8>, a: &[u8; 19])
    ensures
        final(out)@ == old(out)@ + a@,
{
    let mut i: usize = 0;
    while i < 19
        invariant
            i <= 19,
            out@ == old(out)@ + a@.subrange(0, i as int),
        decreases 19 - i,
    {
        out.push(a[i]);
        assert(out@ =~= old(out)@ + a@.subrange(0, i + 1));
        i = i + 1;
    }
    assert(final(out)@ =~= old(out)@ + a@);
}

fn push_array_20(out: &mut Vec<u8>, a: &[u8; 20])
    ensures
        final(out)@ == old(out)@ + a@,
{
    let mut i: usize = 0;
    while i < 20
        invariant
            i <= 20,
            out@ == old(out)@ + a@.subrange(0, i as int),
        decreases 20 - i,
    {
        out.push(a[i]);
        assert(out@ =~= old(out)@ + a@.subrange(0, i + 1));
        i = i + 1;
    }
    assert(final(out)@ =~= old(out)@ + a@);
}

fn array_set_8(a: [u8; 8], i: usize, v: u8) -> (r: [u8; 8])
    requires
        i < 8,
    ensures
        r@ == a@.update(i as int, v),
{
    let mut b = a;
    b[i] = v;
    b
}

fn array_set_19(a: [u8; 19], i: usize, v: u8) -> (r: [u8; 19])
    requires
        i < 19,
    ensures
        r@ == a@.update(i as int, v),
{
    let mut b = a;
    b[i] = v;
    b
}

fn array_set_20(a: [u8; 20], i: usize, v: u8) -> (r: [u8; 20])
    requires
        i < 20,
    ensures
        r@ == a@.update(i as int, v),
{
    let mut b = a;
    b[i] = v;
    b
}

} // verus!

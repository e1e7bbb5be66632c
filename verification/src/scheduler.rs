//! Piece scheduling: build every piece's descriptor-side view, part off the
//! ones no session provides, and hand out the rarest remaining piece first.
//! Ties on rarity are broken by the provider lists themselves, so equal
//! rarity never contends on one piece.

use vstd::prelude::*;
use crate::bitfield::Bitfield;
use crate::dot_torrent::DotTorrent;
use crate::piece::{spec_piece_size, Piece};

verus! {

/// `a` comes no later than `b` in ascending lexicographic order.
pub open spec fn spec_lex_le(a: Seq<usize>, b: Seq<usize>) -> bool
    decreases a.len(),
{
    if a.len() == 0 {
        true
    } else if b.len() == 0 {
        false
    } else if a[0] < b[0] {
        true
    } else if a[0] > b[0] {
        false
    } else {
        spec_lex_le(a.skip(1), b.skip(1))
    }
}

/// The scheduling order: fewer providers first, ties by the provider lists.
pub open spec fn spec_piece_le(x: Piece, y: Piece) -> bool {
    ||| x.spec_peers().len() < y.spec_peers().len()
    ||| (x.spec_peers().len() == y.spec_peers().len() && spec_lex_le(x.spec_peers(), y.spec_peers()))
}

/// Lexicographic order on equal lengths is total.
proof fn lemma_lex_total(a: Seq<usize>, b: Seq<usize>)
    requires
        a.len() == b.len(),
    ensures
        spec_lex_le(a, b) || spec_lex_le(b, a),
    decreases a.len(),
{
    if a.len() > 0 && a[0] == b[0] {
        lemma_lex_total(a.skip(1), b.skip(1));
    }
}

/// Lexicographic order on equal lengths is transitive.
proof fn lemma_lex_trans(a: Seq<usize>, b: Seq<usize>, c: Seq<usize>)
    requires
        a.len() == b.len(),
        b.len() == c.len(),
        spec_lex_le(a, b),
        spec_lex_le(b, c),
    ensures
        spec_lex_le(a, c),
    decreases a.len(),
{
    if a.len() > 0 && a[0] == b[0] && b[0] == c[0] {
        lemma_lex_trans(a.skip(1), b.skip(1), c.skip(1));
    }
}

/// The scheduling order is total and transitive.
proof fn lemma_piece_le_order(x: Piece, y: Piece, z: Piece)
    ensures
        spec_piece_le(x, y) || spec_piece_le(y, x),
        spec_piece_le(x, y) && spec_piece_le(y, z) ==> spec_piece_le(x, z),
{
    if x.spec_peers().len() == y.spec_peers().len() {
        lemma_lex_total(x.spec_peers(), y.spec_peers());
    }
    if spec_piece_le(x, y) && spec_piece_le(y, z) && x.spec_peers().len() == y.spec_peers().len()
        && y.spec_peers().len() == z.spec_peers().len() {
        lemma_lex_trans(x.spec_peers(), y.spec_peers(), z.spec_peers());
    }
}

/// `a` comes no later than `b` in the scheduling order.
fn piece_le(a: &Piece, b: &Piece) -> (r: bool)
    ensures
        r == spec_piece_le(*a, *b),
{
    let ap: &Vec<usize> = a.peers();
    let bp: &Vec<usize> = b.peers();
    if ap.len() < bp.len() {
        return true;
    }
    if ap.len() > bp.len() {
        return false;
    }
    proof {
        assert(ap@.skip(0) =~= ap@);
        assert(bp@.skip(0) =~= bp@);
    }
    let mut i: usize = 0;
    while i < ap.len()
        invariant
            i <= ap@.len(),
            ap@.len() == bp@.len(),
            ap@ == a.spec_peers(),
            bp@ == b.spec_peers(),
            spec_lex_le(a.spec_peers(), b.spec_peers()) == spec_lex_le(
                ap@.skip(i as int),
                bp@.skip(i as int),
            ),
            forall|x: int| 0 <= x < i ==> ap@[x] == bp@[x],
        decreases ap@.len() - i,
    {
        if ap[i] < bp[i] {
            return true;
        }
        if ap[i] > bp[i] {
            return false;
        }
        proof {
            assert(ap@.skip(i as int).skip(1) =~= ap@.skip(i + 1));
            assert(bp@.skip(i as int).skip(1) =~= bp@.skip(i + 1));
        }
        i = i + 1;
    }
    proof {
        assert(ap@.skip(ap@.len() as int).len() == 0);
    }
    true
}

/// Whether a piece of this index stands in the list.
pub open spec fn spec_contains_index(s: Seq<Piece>, i: int) -> bool {
    exists|k: int| 0 <= k < s.len() && s[k].spec_index() == i
}

/// A piece list entry carries exactly what the descriptor and the sessions
/// say about its index.
pub open spec fn spec_piece_matches(p: Piece, dt: DotTorrent, peers: Seq<Bitfield>) -> bool {
    &&& 0 <= p.spec_index() < dt.spec_n_pieces()
    &&& p.spec_length() == spec_piece_size(
        p.spec_index(),
        dt.spec_length(),
        dt.info.piece_length as int,
    )
    &&& p.spec_hash() == dt.info.pieces.0@[p.spec_index()]@
    &&& forall|k: int|
        0 <= k < p.spec_peers().len() ==> (#[trigger] p.spec_peers()[k]) < peers.len()
            && peers[p.spec_peers()[k] as int].spec_has(p.spec_index())
    &&& forall|q: int|
        0 <= q < peers.len() && peers[q].spec_has(p.spec_index()) ==> p.spec_peers().contains(
            q as usize,
        )
}

/// Build one piece view per descriptor digest, parting the pieces some
/// session provides from the ones none does.
pub fn build_pieces(dot_torrent: &DotTorrent, peers: &Vec<Bitfield>) -> (r: (Vec<Piece>, Vec<
    Piece,
>))
    requires
        dot_torrent.consistent(),
    ensures
        r.0@.len() + r.1@.len() == dot_torrent.spec_n_pieces(),
        forall|k: int|
            0 <= k < r.0@.len() ==> spec_piece_matches(#[trigger] r.0@[k], *dot_torrent, peers@)
                && r.0@[k].spec_peers().len() > 0,
        forall|k: int|
            0 <= k < r.1@.len() ==> spec_piece_matches(#[trigger] r.1@[k], *dot_torrent, peers@)
                && r.1@[k].spec_peers().len() == 0,
        forall|i: int|
            0 <= i < dot_torrent.spec_n_pieces() ==> spec_contains_index(r.0@, i)
                || spec_contains_index(r.1@, i),
{
    let n_pieces: usize = dot_torrent.info.pieces.0.len();
    let mut available: Vec<Piece> = Vec::new();
    let mut unavailable: Vec<Piece> = Vec::new();
    let mut piece_i: usize = 0;
    while piece_i < n_pieces
        invariant
            dot_torrent.consistent(),
            n_pieces == dot_torrent.spec_n_pieces(),
            piece_i <= n_pieces,
            available@.len() + unavailable@.len() == piece_i,
            forall|k: int|
                0 <= k < available@.len() ==> spec_piece_matches(
                    #[trigger] available@[k],
                    *dot_torrent,
                    peers@,
                ) && available@[k].spec_peers().len() > 0,
            forall|k: int|
                0 <= k < unavailable@.len() ==> spec_piece_matches(
                    #[trigger] unavailable@[k],
                    *dot_torrent,
                    peers@,
                ) && unavailable@[k].spec_peers().len() == 0,
            forall|i: int|
                0 <= i < piece_i ==> spec_contains_index(available@, i) || spec_contains_index(
                    unavailable@,
                    i,
                ),
        decreases n_pieces - piece_i,
    {
        let ghost av_prev: Seq<Piece> = available@;
        let ghost un_prev: Seq<Piece> = unavailable@;
        let piece: Piece = Piece::new(piece_i, dot_torrent, peers);
        if piece.peers().len() == 0 {
            unavailable.push(piece);
        } else {
            available.push(piece);
        }
        proof {
            assert forall|i: int|
                0 <= i < piece_i + 1 implies spec_contains_index(available@, i)
                || spec_contains_index(unavailable@, i) by {
                if i < piece_i {
                    if spec_contains_index(av_prev, i) {
                        let k = choose|k: int|
                            0 <= k < av_prev.len() && av_prev[k].spec_index() == i;
                        assert(available@[k].spec_index() == i);
                    } else {
                        let k = choose|k: int|
                            0 <= k < un_prev.len() && un_prev[k].spec_index() == i;
                        assert(unavailable@[k].spec_index() == i);
                    }
                } else {
                    if available@.len() > av_prev.len() {
                        assert(available@[available@.len() - 1].spec_index() == i);
                    } else {
                        assert(unavailable@[unavailable@.len() - 1].spec_index() == i);
                    }
                }
            }
        }
        piece_i = piece_i + 1;
    }
    (available, unavailable)
}

/// Take the rarest piece out of the list: one that comes no later than every
/// other in the scheduling order. The rest of the list is untouched.
pub fn pop_rarest(pieces: &mut Vec<Piece>) -> (r: Option<Piece>)
    ensures
        match r {
            None => old(pieces)@.len() == 0 && final(pieces)@ == old(pieces)@,
            Some(m) => {
                &&& exists|idx: int|
                    0 <= idx < old(pieces)@.len() && old(pieces)@[idx] == m && final(pieces)@
                        == old(pieces)@.remove(idx)
                &&& forall|k: int|
                    0 <= k < old(pieces)@.len() ==> spec_piece_le(m, #[trigger] old(pieces)@[k])
            },
        },
{
    if pieces.len() == 0 {
        return None;
    }
    let mut best: usize = 0;
    proof {
        lemma_piece_le_order(pieces@[0], pieces@[0], pieces@[0]);
    }
    let mut k: usize = 1;
    while k < pieces.len()
        invariant
            pieces@ == old(pieces)@,
            pieces@.len() > 0,
            best < k <= pieces@.len(),
            forall|j: int| 0 <= j < k ==> spec_piece_le(pieces@[best as int], #[trigger] pieces@[j]),
        decreases pieces@.len() - k,
    {
        if piece_le(&pieces[k], &pieces[best]) {
            proof {
                assert forall|j: int|
                    0 <= j < k + 1 implies spec_piece_le(pieces@[k as int], #[trigger] pieces@[j]) by {
                    if j < k {
                        lemma_piece_le_order(pieces@[k as int], pieces@[best as int], pieces@[j]);
                    } else {
                        lemma_piece_le_order(pieces@[k as int], pieces@[k as int], pieces@[j]);
                    }
                }
            }
            best = k;
        } else {
            proof {
                assert forall|j: int|
                    0 <= j < k + 1 implies spec_piece_le(pieces@[best as int], #[trigger] pieces@[j]) by {
                    if j == k {
                        lemma_piece_le_order(pieces@[k as int], pieces@[best as int], pieces@[j]);
                    }
                }
            }
        }
        k = k + 1;
    }
    let m: Piece = pieces.remove(best);
    Some(m)
}

} // verus!

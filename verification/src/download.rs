//! The verified core of the per-piece downloader and of the final output:
//! a finished piece's bytes reach the output buffer only through
//! `finish_piece`, which lets them through exactly when their digest matches the
//! descriptor's, and the finished output cut back into files.

use vstd::prelude::*;
use crate::assembly::PieceAssembly;
use crate::dot_torrent::{spec_files_total, spec_files_total_upto, DotTorrent, File, Key};
use crate::hashing::{sha1_of, verify_digest};
use crate::piece::{
    lemma_piece_size_sum_full, lemma_piece_sizes_cover, spec_n_pieces, spec_piece_size,
    spec_piece_size_sum,
};

verus! {

/// What ends a download: a piece whose bytes do not match their digest, a
/// piece no remaining session can provide, or a piece no session ever
/// provided.
#[derive(Clone, Copy, Debug, PartialEq, Eq, Structural)]
pub enum DownloadError {
    HashMismatch { piece_i: usize },
    NoPeersLeft { piece_i: usize },
    NoProviders { piece_i: usize },
}

/// Deliver one assembled piece into the output buffer at its offset
/// `piece_i * piece_len` — but only after its digest equals the expected
/// one. On a mismatch the output is left untouched and the download fails
/// citing the piece.
pub fn finish_piece(
    out: &mut Vec<u8>,
    piece_i: usize,
    piece_len: usize,
    piece_data: &PieceAssembly,
    expected: &[u8; 20],
) -> (r: Result<(), DownloadError>)
    requires
        piece_data.wf(),
        piece_i * piece_len + piece_data.spec_piece_size() <= old(out)@.len(),
    ensures
        final(out)@.len() == old(out)@.len(),
        match r {
            Ok(()) => sha1_of(piece_data.spec_buf()) == expected@ && final(out)@ == old(out)@.subrange(
                0,
                (piece_i * piece_len) as int,
            ) + piece_data.spec_buf() + old(out)@.skip(piece_i * piece_len + piece_data.spec_piece_size()),
            Err(e) => e == (DownloadError::HashMismatch { piece_i }) && sha1_of(piece_data.spec_buf())
                != expected@ && final(out)@ == old(out)@,
        },
{
    if !verify_digest(piece_data.bytes(), expected) {
        return Err(DownloadError::HashMismatch { piece_i });
    }
    let out_len: usize = out.len();
    let offset: usize = piece_i * piece_len;
    let data: &Vec<u8> = piece_data.bytes();
    let ghost old_out: Seq<u8> = out@;
    let mut i: usize = 0;
    while i < data.len()
        invariant
            i <= data@.len(),
            offset + data@.len() <= out_len,
            out@.len() == out_len,
            out@.len() == old_out.len(),
            forall|x: int| 0 <= x < offset ==> out@[x] == old_out[x],
            forall|x: int| 0 <= x < i ==> out@[offset + x] == data@[x],
            forall|x: int| offset + data@.len() <= x < out@.len() ==> out@[x] == old_out[x],
        decreases data@.len() - i,
    {
        let b: u8 = data[i];
        out[offset + i] = b;
        i = i + 1;
    }
    assert(final(out)@ =~= old_out.subrange(0, offset as int) + data@ + old_out.skip(
        offset + data@.len(),
    ));
    Ok(())
}

/// The first `k` pieces' bytes, one after the other.
pub open spec fn spec_concat_upto(pieces: Seq<Seq<u8>>, k: int) -> Seq<u8>
    decreases k,
{
    if k <= 0 {
        Seq::empty()
    } else {
        spec_concat_upto(pieces, k - 1) + pieces[k - 1]
    }
}

/// Completion integrity, second half: when every piece's bytes stand in the
/// output at that piece's offset, the output is exactly the pieces'
/// concatenation: the whole content, byte for byte.
pub proof fn lemma_delivered_concatenation(out: Seq<u8>, pieces: Seq<Seq<u8>>, piece_len: int)
    requires
        1 <= out.len(),
        1 <= piece_len,
        pieces.len() == spec_n_pieces(out.len() as int, piece_len),
        forall|i: int|
            0 <= i < pieces.len() ==> (#[trigger] pieces[i]).len() == spec_piece_size(
                i,
                out.len() as int,
                piece_len,
            ),
        forall|i: int|
            0 <= i < pieces.len() ==> out.subrange(
                i * piece_len,
                i * piece_len + (#[trigger] pieces[i]).len(),
            ) == pieces[i],
    ensures
        out == spec_concat_upto(pieces, pieces.len() as int),
{
    let n = out.len() as int;
    let p = pieces.len() as int;
    lemma_piece_sizes_cover(n, piece_len);
    lemma_prefix_concat(out, pieces, piece_len, p);
    assert(out.subrange(0, spec_piece_size_sum(p, n, piece_len)) =~= out);
}

/// The output's prefix of the first `k` pieces' summed length equals those
/// pieces' concatenation.
proof fn lemma_prefix_concat(out: Seq<u8>, pieces: Seq<Seq<u8>>, piece_len: int, k: int)
    requires
        1 <= out.len(),
        1 <= piece_len,
        0 <= k <= pieces.len(),
        pieces.len() == spec_n_pieces(out.len() as int, piece_len),
        forall|i: int|
            0 <= i < pieces.len() ==> (#[trigger] pieces[i]).len() == spec_piece_size(
                i,
                out.len() as int,
                piece_len,
            ),
        forall|i: int|
            0 <= i < pieces.len() ==> out.subrange(
                i * piece_len,
                i * piece_len + (#[trigger] pieces[i]).len(),
            ) == pieces[i],
    ensures
        0 <= spec_piece_size_sum(k, out.len() as int, piece_len) <= out.len(),
        out.subrange(0, spec_piece_size_sum(k, out.len() as int, piece_len)) == spec_concat_upto(
            pieces,
            k,
        ),
    decreases k,
{
    let n = out.len() as int;
    if k == 0 {
        assert(out.subrange(0, 0) =~= spec_concat_upto(pieces, 0));
    } else {
        lemma_prefix_concat(out, pieces, piece_len, k - 1);
        lemma_piece_size_sum_full(k - 1, n, piece_len);
        let a = spec_piece_size_sum(k - 1, n, piece_len);
        let b = spec_piece_size_sum(k, n, piece_len);
        assert(a == (k - 1) * piece_len);
        crate::piece::lemma_piece_size_bounds(k - 1, n, piece_len);
        lemma_piece_sizes_cover(n, piece_len);
        let p = pieces.len() as int;
        lemma_piece_size_sum_full(p - 1, n, piece_len);
        crate::piece::lemma_piece_size_bounds(p - 1, n, piece_len);
        if k < pieces.len() {
            lemma_piece_size_sum_full(k, n, piece_len);
            assert(b == k * piece_len);
            assert(k * piece_len == (k - 1) * piece_len + piece_len) by (nonlinear_arith);
            assert(k * piece_len <= (p - 1) * piece_len) by (nonlinear_arith)
                requires
                    k <= p - 1,
                    piece_len >= 0,
            ;
            assert(n == (p - 1) * piece_len + spec_piece_size(p - 1, n, piece_len));
            assert(b <= n);
        }
        assert(b == a + pieces[k - 1].len());
        assert(0 <= a <= b <= out.len());
        assert(out.subrange((k - 1) * piece_len, (k - 1) * piece_len + pieces[k - 1].len())
            == pieces[k - 1]);
        assert(out.subrange(0, b) =~= out.subrange(0, a) + out.subrange(a, b));
        assert(out.subrange(a, b) =~= out.subrange(
            (k - 1) * piece_len,
            (k - 1) * piece_len + pieces[k - 1].len(),
        ));
    }
}

/// The finished download: the concatenated bytes and the file layout they
/// cut into.
pub struct Downloaded {
    files: Vec<File>,
    bytes: Vec<u8>,
}

impl Downloaded {
    pub closed spec fn spec_files(&self) -> Seq<File> {
        self.files@
    }

    pub closed spec fn spec_bytes(&self) -> Seq<u8> {
        self.bytes@
    }

    /// The byte stream is exactly as long as the files it holds.
    pub open spec fn wf(&self) -> bool {
        spec_files_total(self.spec_files()) == self.spec_bytes().len()
    }

    /// Pair the finished byte stream with its file layout.
    pub fn new(files: Vec<File>, bytes: Vec<u8>) -> (r: Downloaded)
        requires
            spec_files_total(files@) == bytes@.len(),
        ensures
            r.wf(),
            r.spec_files() == files@,
            r.spec_bytes() == bytes@,
    {
        Downloaded { files, bytes }
    }

    pub fn file_count(&self) -> (r: usize)
        ensures
            r == self.spec_files().len(),
    {
        self.files.len()
    }
}

/// One finished file: its path segments and its bytes, cut out of the
/// stream.
pub struct DownloadedFile {
    file_path: Vec<String>,
    file_bytes: Vec<u8>,
}

impl DownloadedFile {
    pub closed spec fn spec_path(&self) -> Seq<String> {
        self.file_path@
    }

    pub closed spec fn spec_bytes(&self) -> Seq<u8> {
        self.file_bytes@
    }

    pub fn path(&self) -> (r: &Vec<String>)
        ensures
            r@ == self.spec_path(),
    {
        &self.file_path
    }

    pub fn bytes(&self) -> (r: &Vec<u8>)
        ensures
            r@ == self.spec_bytes(),
    {
        &self.file_bytes
    }
}

/// Walks the finished download file by file, cutting the stream at the
/// cumulative file lengths.
pub struct DownloadedIter {
    file_i: usize,
    offset: usize,
}

impl DownloadedIter {
    pub closed spec fn spec_file_i(&self) -> int {
        self.file_i as int
    }

    pub closed spec fn spec_offset(&self) -> int {
        self.offset as int
    }

    /// The cursor agrees with the download: it stands at the start of file
    /// `file_i`, which is the sum of the lengths before it.
    pub open spec fn wf_for(&self, d: Downloaded) -> bool {
        &&& self.spec_file_i() <= d.spec_files().len()
        &&& self.spec_offset() == spec_files_total_upto(d.spec_files(), self.spec_file_i())
    }

    /// Start at the first file of the download.
    pub fn new(d: &Downloaded) -> (r: DownloadedIter)
        ensures
            r.wf_for(*d),
            r.spec_file_i() == 0,
    {
        DownloadedIter { file_i: 0, offset: 0 }
    }

    /// The next file's path and bytes: file `file_i` owns the bytes from
    /// the sum of the lengths before it, as many as its length.
    pub fn next(&mut self, d: &Downloaded) -> (r: Option<DownloadedFile>)
        requires
            d.wf(),
            old(self).wf_for(*d),
        ensures
            final(self).wf_for(*d),
            match r {
                Some(f) => {
                    let i = old(self).spec_file_i();
                    &&& i < d.spec_files().len()
                    &&& final(self).spec_file_i() == i + 1
                    &&& f.spec_path().len() == d.spec_files()[i].path@.len()
                    &&& forall|k: int|
                        0 <= k < f.spec_path().len() ==> f.spec_path()[k]@ == d.spec_files()[i].path@[k]@
                    &&& f.spec_bytes() == d.spec_bytes().subrange(
                        spec_files_total_upto(d.spec_files(), i),
                        spec_files_total_upto(d.spec_files(), i) + d.spec_files()[i].length,
                    )
                },
                None => old(self).spec_file_i() == d.spec_files().len() && *final(self) == *old(
                    self,
                ),
            },
    {
        if self.file_i >= d.files.len() {
            return None;
        }
        proof {
            crate::dot_torrent::lemma_files_total_monotonic(d.spec_files(), self.file_i + 1);
        }
        let total_bytes: usize = d.bytes.len();
        let file: &File = &d.files[self.file_i];
        let file_path: Vec<String> = clone_string_vec(&file.path);
        let file_bytes: Vec<u8> = copy_range(&d.bytes, self.offset, file.length);
        self.file_i = self.file_i + 1;
        self.offset = self.offset + file.length;
        Some(DownloadedFile { file_path, file_bytes })
    }
}

/// The files the output maps to: the single file under the torrent's name,
/// or the declared list, in order.
pub fn files_of(dot_torrent: &DotTorrent) -> (r: Vec<File>)
    ensures
        match dot_torrent.info.key {
            Key::SingleFile { length } => r@.len() == 1 && r@[0].length == length
                && r@[0].path@.len() == 1 && r@[0].path@[0]@ == dot_torrent.info.name@,
            Key::MultipleFiles { files } => r@.len() == files@.len() && forall|i: int|
                0 <= i < files@.len() ==> (#[trigger] r@[i]).length == files@[i].length
                    && r@[i].path@.len() == files@[i].path@.len() && (forall|k: int|
                    0 <= k < files@[i].path@.len() ==> r@[i].path@[k]@ == files@[i].path@[k]@),
        },
{
    match &dot_torrent.info.key {
        Key::SingleFile { length } => {
            let mut path: Vec<String> = Vec::new();
            path.push(dot_torrent.info.name.clone());
            let mut out: Vec<File> = Vec::new();
            out.push(File { length: *length, path });
            out
        },
        Key::MultipleFiles { files } => {
            let mut out: Vec<File> = Vec::new();
            let mut i: usize = 0;
            while i < files.len()
                invariant
                    i <= files@.len(),
                    out@.len() == i,
                    forall|x: int|
                        0 <= x < i ==> (#[trigger] out@[x]).length == files@[x].length
                            && out@[x].path@.len() == files@[x].path@.len() && (forall|k: int|
                            0 <= k < files@[x].path@.len() ==> out@[x].path@[k]@
                                == files@[x].path@[k]@),
                decreases files@.len() - i,
            {
                let path: Vec<String> = clone_string_vec(&files[i].path);
                out.push(File { length: files[i].length, path });
                i = i + 1;
            }
            out
        },
    }
}

/// A copy of a list of strings, element for element.
fn clone_string_vec(v: &Vec<String>) -> (r: Vec<String>)
    ensures
        r@.len() == v@.len(),
        forall|i: int| 0 <= i < v@.len() ==> r@[i]@ == v@[i]@,
{
    let mut out: Vec<String> = Vec::new();
    let mut i: usize = 0;
    while i < v.len()
        invariant
            i <= v@.len(),
            out@.len() == i,
            forall|x: int| 0 <= x < i ==> out@[x]@ == v@[x]@,
        decreases v@.len() - i,
    {
        out.push(v[i].clone());
        i = i + 1;
    }
    out
}

/// The bytes of `src` from `start`, `len` of them.
fn copy_range(src: &Vec<u8>, start: usize, len: usize) -> (r: Vec<u8>)
    requires
        start + len <= src@.len(),
    ensures
        r@ == src@.subrange(start as int, start as int + len),
{
    let src_len: usize = src.len();
    let mut out: Vec<u8> = Vec::new();
    let mut i: usize = 0;
    while i < len
        invariant
            i <= len,
            start + len <= src_len,
            src@.len() == src_len,
            out@ == src@.subrange(start as int, start as int + i),
        decreases len - i,
    {
        let b: u8 = src[start + i];
        out.push(b);
        assert(out@ =~= src@.subrange(start as int, start as int + i + 1));
        i = i + 1;
    }
    out
}

} // verus!

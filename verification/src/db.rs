//! The little state file the client keeps between runs, modelled as plain
//! values: its bytes, a running id, and the checksum of what is on disk.
//! Opening and writing the file itself is the caller's work; the decision
//! whether a write is due — the checksum changed — is made here.

use vstd::prelude::*;

verus! {

/// The loaded state file.
#[derive(Clone, Debug)]
pub struct FileDB {
    path: String,
    config_path: String,
    id: usize,
    checksum: [u8; 32],
    data: Vec<u8>,
}

impl FileDB {
    pub closed spec fn spec_id(&self) -> int {
        self.id as int
    }

    pub closed spec fn spec_checksum(&self) -> Seq<u8> {
        self.checksum@
    }

    pub closed spec fn spec_data(&self) -> Seq<u8> {
        self.data@
    }

    pub closed spec fn spec_path(&self) -> Seq<char> {
        self.path@
    }

    pub closed spec fn spec_config_path(&self) -> Seq<char> {
        self.config_path@
    }

    /// Adopt what the caller read off disk: the two paths, the stored id,
    /// the checksum of the stored bytes, and the bytes.
    pub fn new(
        path: String,
        config_path: String,
        id: usize,
        checksum: [u8; 32],
        data: Vec<u8>,
    ) -> (r: FileDB)
        ensures
            r.spec_path() == path@,
            r.spec_config_path() == config_path@,
            r.spec_id() == id,
            r.spec_checksum() == checksum@,
            r.spec_data() == data@,
    {
        FileDB { path, config_path, id, checksum, data }
    }

    /// The stored bytes.
    pub fn data(&self) -> (r: &Vec<u8>)
        ensures
            r@ == self.spec_data(),
    {
        &self.data
    }

    /// The stored file path.
    pub fn path(&self) -> (r: &String)
        ensures
            r@ == self.spec_path(),
    {
        &self.path
    }

    /// The next fresh id: the counter moves up by one and is handed out.
    pub fn generate_id(&mut self) -> (r: usize)
        requires
            old(self).spec_id() < usize::MAX,
        ensures
            final(self).spec_id() == old(self).spec_id() + 1,
            r == final(self).spec_id(),
            final(self).spec_data() == old(self).spec_data(),
            final(self).spec_checksum() == old(self).spec_checksum(),
    {
        self.id = self.id + 1;
        self.id
    }

    /// Take in new content and its checksum. Content whose checksum equals
    /// the stored one changes nothing and asks for no write; otherwise the
    /// checksum and the bytes are adopted and the caller must write them
    /// out.
    pub fn apply_write(&mut self, buf: &Vec<u8>, checksum: &[u8; 32]) -> (write_due: bool)
        ensures
            write_due == (checksum@ != old(self).spec_checksum()),
            final(self).spec_id() == old(self).spec_id(),
            final(self).spec_path() == old(self).spec_path(),
            final(self).spec_config_path() == old(self).spec_config_path(),
            if write_due {
                final(self).spec_checksum() == checksum@ && final(self).spec_data() == buf@
            } else {
                *final(self) == *old(self)
            },
    {
        if eq32(&self.checksum, checksum) {
            return false;
        }
        self.checksum = *checksum;
        let mut data: Vec<u8> = Vec::new();
        let mut i: usize = 0;
        while i < buf.len()
            invariant
                i <= buf@.len(),
                data@ == buf@.subrange(0, i as int),
            decreases buf@.len() - i,
        {
            let b: u8 = buf[i];
            data.push(b);
            assert(data@ =~= buf@.subrange(0, i + 1));
            i = i + 1;
        }
        assert(data@ =~= buf@);
        self.data = data;
        true
    }
}

/// Whether two 32-byte checksums are the same.
fn eq32(a: &[u8; 32], b: &[u8; 32]) -> (r: bool)
    ensures
        r == (a@ == b@),
{
    let mut i: usize = 0;
    let mut same: bool = true;
    while i < 32
        invariant
            i <= 32,
            same == (forall|j: int| 0 <= j < i ==> a@[j] == b@[j]),
        decreases 32 - i,
    {
        if a[i] != b[i] {
            same = false;
        }
        i = i + 1;
    }
    proof {
        if same {
            assert(a@ =~= b@);
        }
    }
    same
}

} // verus!

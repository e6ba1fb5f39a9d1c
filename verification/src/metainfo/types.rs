use vstd::prelude::*;

use crate::bencode::types::equal_bytes;
use vstd::std_specs::cmp::PartialEqSpecImpl;
use vstd::string::StringExecFns;

verus! {

/// Bencode-Decoded metainfo file.
#[derive(Debug, Clone)]
pub struct Metainfo {
    /// Contains information about the file to download.
    pub info: Info,
    /// 20 byte SHA-1 hash obtained from hashing the 'info' dictionary.
    pub info_hash: Vec<u8>,
    /// The announce URL used for connecting to the tracker.
    pub announce: String,
}

/// Bencode-Decoded Info Dictionary of a metainfo file.
#[derive(Debug, Clone)]
pub struct Info {
    /// The length in bytes of each single piece.
    pub piece_length: u32,
    /// The 20 byte SHA-1 hashes of all pieces, to verify the data sent to us by peers.
    pub pieces: Vec<Vec<u8>>,
    /// The file name.
    pub name: String,
    /// The size of the torrent in bytes.
    pub length: u64,
    /// Files structure in case it is a multi-file torrent.
    pub files: Option<Vec<File>>,
}

/// A file of a multi-file torrent.
#[derive(Debug, Clone)]
pub struct File {
    pub path: String,
    pub length: u64,
}

/// The mathematical model of an [`Info`], without the files.
pub struct SpecInfo {
    pub piece_length: u32,
    pub pieces: Seq<Seq<u8>>,
    pub name: Seq<char>,
    pub length: u64,
}

/// The mathematical model of a [`Metainfo`].
pub struct SpecMetainfo {
    pub info: SpecInfo,
    pub info_hash: Seq<u8>,
    pub announce: Seq<char>,
}

impl Info {
    pub open spec fn model(self) -> SpecInfo {
        SpecInfo {
            piece_length: self.piece_length,
            pieces: Seq::new(self.pieces.len() as nat, |i: int| self.pieces@[i]@),
            name: self.name@,
            length: self.length,
        }
    }
}

impl Metainfo {
    pub open spec fn model(self) -> SpecMetainfo {
        SpecMetainfo { info: self.info.model(), info_hash: self.info_hash@, announce: self.announce@ }
    }
}


/// The files of a multi-file torrent, as values.
pub open spec fn files_view(files: Option<Vec<File>>) -> Option<Seq<(Seq<char>, u64)>> {
    match files {
        Some(v) => Some(v@.map_values(|f: File| (f.path@, f.length))),
        None => None,
    }
}

impl File {
    /// A copy of the file entry.
    pub fn copy(&self) -> (r: File)
        ensures
            r.path@ == self.path@,
            r.length == self.length,
    {
        File { path: String::from_str(self.path.as_str()), length: self.length }
    }
}

impl Info {
    /// A copy of the info dictionary.
    pub fn copy(&self) -> (r: Info)
        ensures
            r.model() == self.model(),
            files_view(r.files) == files_view(self.files),
    {
        let mut pieces: Vec<Vec<u8>> = Vec::new();
        let mut i: usize = 0;
        while i < self.pieces.len()
            invariant
                i <= self.pieces.len(),
                pieces@.len() == i,
                forall|j: int| 0 <= j < i ==> #[trigger] pieces@[j]@ == self.pieces@[j]@,
            decreases self.pieces.len() - i,
        {
            pieces.push(vstd::slice::slice_to_vec(self.pieces[i].as_slice()));
            i += 1;
        }
        let files = match &self.files {
            Some(list) => {
                let mut copied: Vec<File> = Vec::new();
                let mut k: usize = 0;
                while k < list.len()
                    invariant
                        k <= list.len(),
                        copied@.len() == k,
                        forall|j: int| 0 <= j < k ==> #[trigger] copied@[j].path@ == list@[j].path@
                            && copied@[j].length == list@[j].length,
                    decreases list.len() - k,
                {
                    copied.push(list[k].copy());
                    k += 1;
                }
                assert(copied@.map_values(|f: File| (f.path@, f.length)) =~= list@.map_values(
                    |f: File| (f.path@, f.length),
                ));
                Some(copied)
            },
            None => None,
        };
        let r = Info {
            piece_length: self.piece_length,
            pieces,
            name: String::from_str(self.name.as_str()),
            length: self.length,
            files,
        };
        assert(r.model().pieces =~= self.model().pieces);
        r
    }
}

impl Metainfo {
    /// A copy of the metainfo.
    pub fn copy(&self) -> (r: Metainfo)
        ensures
            r.model() == self.model(),
            files_view(r.info.files) == files_view(self.info.files),
    {
        Metainfo {
            info: self.info.copy(),
            info_hash: vstd::slice::slice_to_vec(self.info_hash.as_slice()),
            announce: String::from_str(self.announce.as_str()),
        }
    }
}


/// Whether two sequences of piece hashes hold the same hashes.
fn same_pieces(a: &Vec<Vec<u8>>, b: &Vec<Vec<u8>>) -> (same: bool)
    ensures
        same == (Seq::new(a.len() as nat, |i: int| a@[i]@) == Seq::new(
            b.len() as nat,
            |i: int| b@[i]@,
        )),
{
    let ghost sa = Seq::new(a.len() as nat, |i: int| a@[i]@);
    let ghost sb = Seq::new(b.len() as nat, |i: int| b@[i]@);
    if a.len() != b.len() {
        assert(sa.len() != sb.len());
        return false;
    }
    let mut i: usize = 0;
    while i < a.len()
        invariant
            a.len() == b.len(),
            i <= a.len(),
            sa == Seq::new(a.len() as nat, |i: int| a@[i]@),
            sb == Seq::new(b.len() as nat, |i: int| b@[i]@),
            forall|j: int| 0 <= j < i ==> #[trigger] sa[j] == sb[j],
        decreases a.len() - i,
    {
        if !equal_bytes(a[i].as_slice(), b[i].as_slice()) {
            assert(sa[i as int] != sb[i as int]);
            return false;
        }
        i += 1;
    }
    assert(sa =~= sb);
    true
}

impl PartialEq for Info {
    /// Two info dictionaries are equal when they have the same piece length, piece hashes,
    /// name and length; the files are not compared.
    fn eq(&self, other: &Self) -> (r: bool) {
        self.piece_length == other.piece_length && same_pieces(&self.pieces, &other.pieces)
            && self.name == other.name && self.length == other.length
    }
}

impl PartialEqSpecImpl for Info {
    open spec fn obeys_eq_spec() -> bool {
        true
    }

    open spec fn eq_spec(&self, other: &Self) -> bool {
        self.model() == other.model()
    }
}

impl PartialEq for Metainfo {
    /// Two metainfos are equal when they have equal info dictionaries, the same info hash
    /// and the same announce URL.
    fn eq(&self, other: &Self) -> (r: bool) {
        self.info == other.info && equal_bytes(self.info_hash.as_slice(), other.info_hash.as_slice())
            && self.announce == other.announce
    }
}

impl PartialEqSpecImpl for Metainfo {
    open spec fn obeys_eq_spec() -> bool {
        true
    }

    open spec fn eq_spec(&self, other: &Self) -> bool {
        self.model() == other.model()
    }
}

} // verus!

//! Content-addressed storage: where an object of a given hash is kept.

use vstd::prelude::*;
use crate::ir::ContentHash;
use crate::paths::{join_path, join_path_exec};
use crate::text::{chars_of, string_of};

verus! {

/// A lowercase hexadecimal digit.
pub open spec fn hex_digit(n: nat) -> char {
    if n < 10 {
        ('0' as int + n) as char
    } else {
        ('a' as int + n - 10) as char
    }
}

/// Bytes in lowercase hexadecimal, two digits per byte, high digit first.
pub open spec fn hex_of(bytes: Seq<u8>) -> Seq<char>
    decreases bytes.len(),
{
    if bytes.len() == 0 {
        Seq::empty()
    } else {
        hex_of(bytes.drop_last()) + seq![hex_digit((bytes.last() / 16) as nat), hex_digit((bytes.last() % 16) as nat)]
    }
}

proof fn lemma_hex_len(bytes: Seq<u8>)
    ensures
        hex_of(bytes).len() == 2 * bytes.len(),
    decreases bytes.len(),
{
    if bytes.len() > 0 {
        lemma_hex_len(bytes.drop_last());
    }
}

/// `hex::encode`: the bytes in lowercase hexadecimal (`hex_of`).
#[verifier::external_body]
fn hex_encode(data: &[u8]) -> (r: String)
    ensures
        r@ == hex_of(data@),
{
    hex::encode(data)
}

/// Storage for index data.
pub struct Storage {
    root: String,
}

impl Storage {
    /// The directory the storage lives in.
    pub closed spec fn root_dir(&self) -> Seq<char> {
        self.root@
    }

    /// Storage rooted at `root` (the directory is made by the caller).
    pub fn open_at(root: &str) -> (r: Self)
        ensures
            r.root_dir() == root@,
    {
        Storage { root: String::from_str(root) }
    }

    /// Where the object of a hash is kept: `objects/`, a directory named by
    /// the first two hex digits of the hash, and a file named by the rest.
    pub fn object_path(&self, hash: &ContentHash) -> (r: String)
        ensures
            r@ == join_path(join_path(join_path(self.root_dir(), "objects"@), hex_of(hash.0@).take(2)), hex_of(hash.0@).skip(2)),
    {
        let hex = chars_of(hex_encode(&hash.0).as_str());
        proof {
            lemma_hex_len(hash.0@);
        }
        let head = string_of(&hex.as_slice()[0..2]);
        let tail = string_of(&hex.as_slice()[2..hex.len()]);
        proof {
            assert(head@ =~= hex@.take(2));
            assert(tail@ =~= hex@.skip(2));
        }
        let objects = join_path_exec(self.root.as_str(), "objects");
        let dir = join_path_exec(objects.as_str(), head.as_str());
        join_path_exec(dir.as_str(), tail.as_str())
    }
}

} // verus!

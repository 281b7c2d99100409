//! Content-addressed thumbnail cache paths and keys.
//!
//! A thumbnail is stored under a hex digest of the content it was made
//! for, in a two-character subdirectory so no directory grows too large.
//! The cache key of a source file mixes the file's path with its
//! modification time, so an edited file gets a fresh thumbnail. Reading
//! and writing the files themselves is the application layer's work; the
//! path and key computations live here.

use vstd::prelude::*;
use vstd::string::StringSliceAdditionalSpecFns;

verus! {

/// The 64-character lowercase hex form of the BLAKE3 digest of a byte
/// sequence; a function of the bytes alone.
pub uninterp spec fn blake3_hex(bytes: Seq<u8>) -> Seq<char>;

/// Relies on `blake3::hash` and `blake3::Hash::to_hex`: the digest is a
/// function of the input bytes alone, and its hex form writes two
/// characters for each of the 32 digest bytes.
#[verifier::external_body]
fn hash_hex(bytes: &[u8]) -> (r: String)
    ensures
        r@ == blake3_hex(bytes@),
        r@.len() == 64,
{
    blake3::hash(bytes).to_hex().as_str().to_owned()
}

/// Hex digest of a byte sequence, as the import step records it for each
/// file's content.
pub fn content_hash_hex(bytes: &[u8]) -> (r: String)
    ensures
        r@ == blake3_hex(bytes@),
        r@.len() == 64,
{
    hash_hex(bytes)
}

/// The little-endian base-256 digits of `n`, `count` bytes long.
pub open spec fn le_bytes(n: u128, count: nat) -> Seq<u8>
    decreases count,
{
    if count == 0 {
        Seq::empty()
    } else {
        seq![(n % 256) as u8] + le_bytes(n / 256, (count - 1) as nat)
    }
}

/// The bytes hashed for a thumbnail cache key: the path's UTF-8 bytes,
/// followed by the modification time in nanoseconds as 16 little-endian
/// bytes when one is known.
pub open spec fn spec_cache_key_input(path: &str, mtime_nanos: Option<u128>) -> Seq<u8> {
    match mtime_nanos {
        None => path.spec_bytes(),
        Some(n) => path.spec_bytes() + le_bytes(n, 16),
    }
}

/// Cache key of a source file: the hex digest of its path and, when
/// known, its modification time in nanoseconds.
pub fn thumbnail_cache_key(path: &str, mtime_nanos: Option<u128>) -> (r: String)
    ensures
        r@ == blake3_hex(spec_cache_key_input(path, mtime_nanos)),
        r@.len() == 64,
{
    let mut buf: Vec<u8> = path.as_bytes_vec();
    if let Some(n) = mtime_nanos {
        let ghost n0 = n;
        let ghost mut prefix: Seq<u8> = Seq::empty();
        let mut cur = n;
        let mut i: usize = 0;
        proof {
            assert(prefix + le_bytes(cur, 16) =~= le_bytes(n0, 16));
            assert(buf@ =~= path.spec_bytes() + prefix);
        }
        while i < 16
            invariant
                i <= 16,
                buf@ == path.spec_bytes() + prefix,
                prefix + le_bytes(cur, (16 - i) as nat) == le_bytes(n0, 16),
            decreases 16 - i,
        {
            let ghost pre_cur = cur;
            let ghost pre_prefix = prefix;
            let b: u8 = (cur % 256) as u8;
            buf.push(b);
            cur = cur / 256;
            proof {
                prefix = prefix + seq![b];
                assert(le_bytes(pre_cur, (16 - i) as nat) =~= seq![b] + le_bytes(
                    cur,
                    (15 - i) as nat,
                ));
                assert(prefix + le_bytes(cur, (15 - i) as nat) =~= pre_prefix + le_bytes(
                    pre_cur,
                    (16 - i) as nat,
                ));
                assert(buf@ =~= path.spec_bytes() + prefix);
            }
            i += 1;
        }
        proof {
            assert(le_bytes(cur, 0) =~= Seq::<u8>::empty());
            assert(prefix =~= prefix + le_bytes(cur, 0));
            assert(buf@ =~= path.spec_bytes() + le_bytes(n0, 16));
        }
    }
    hash_hex(buf.as_slice())
}

/// How a thumbnail path is laid out under the cache directory: a
/// subdirectory named by the digest's first two characters (or the whole
/// digest where it is shorter), then `<digest>.jpg`. The directory is
/// taken as given, without a trailing separator.
pub open spec fn spec_thumbnail_path(dir: Seq<char>, digest: Seq<char>) -> Seq<char> {
    let cut = if digest.len() < 2 {
        digest.len() as int
    } else {
        2
    };
    dir + "/"@ + digest.subrange(0, cut) + "/"@ + digest + ".jpg"@
}

/// Disk layout of the thumbnail cache, keyed by content digest; the
/// application layer does the reading and writing at the paths computed
/// here.
pub struct ThumbnailCache {
    cache_dir: String,
}

impl ThumbnailCache {
    /// The directory this cache lives under, as a character sequence.
    pub closed spec fn dir(&self) -> Seq<char> {
        self.cache_dir@
    }

    /// A cache rooted at the given directory (no trailing separator).
    pub fn new(cache_dir: String) -> (c: ThumbnailCache)
        ensures
            c.dir() == cache_dir@,
    {
        ThumbnailCache { cache_dir }
    }

    /// The directory this cache lives under.
    pub fn cache_dir(&self) -> (r: &str)
        ensures
            r@ == self.dir(),
    {
        self.cache_dir.as_str()
    }

    /// Where the thumbnail for a content digest is stored, as
    /// `spec_thumbnail_path` lays it out.
    pub fn thumbnail_path(&self, content_hash: &str) -> (r: String)
        ensures
            r@ == spec_thumbnail_path(self.dir(), content_hash@),
    {
        let hash_len = content_hash.unicode_len();
        let cut = if hash_len < 2 {
            hash_len
        } else {
            2
        };
        let sub = content_hash.substring_char(0, cut);
        let mut out = self.cache_dir.clone();
        out.append("/");
        out.append(sub);
        out.append("/");
        out.append(content_hash);
        out.append(".jpg");
        proof {
            assert(out@ =~= spec_thumbnail_path(self.cache_dir@, content_hash@));
            assert(self.dir() == self.cache_dir@);
        }
        out
    }
}

} // verus!

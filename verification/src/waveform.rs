//! Waveform preview support: resolution presets and the cache key scheme
//! used to store generated waveform data on disk.

use vstd::prelude::*;

use vstd::string::{StringExecFns, StringSliceAdditionalSpecFns};

use sha2::Digest;

use crate::exporter::hex_digit;

verus! {

/// Errors that can arise while generating or caching waveform data.
#[derive(Debug)]
pub enum WaveformError {
    /// The audio file does not exist.
    FileNotFound(String),
    /// The audio file is not in a format the decoder understands.
    InvalidFormat(String),
    /// Decoding or peak computation failed.
    GenerationFailed(String),
    /// The waveform cache could not be read or written.
    CacheError(String),
    /// An underlying I/O failure.
    IoError(String),
}

/// Waveform resolution preset.
#[derive(Debug, Clone, Copy, PartialEq, Eq, Structural)]
pub enum WaveformResolution {
    /// Thumbnail resolution.
    Thumbnail,
    /// Standard resolution.
    Standard,
    /// High resolution.
    High,
    /// One peak per source sample; the count depends on the audio length.
    Full,
}

impl WaveformResolution {
    /// Target number of peak samples for this resolution; zero means the
    /// count is dynamic, based on the audio length.
    pub fn sample_count(&self) -> (n: usize)
        ensures
            n == self.spec_sample_count(),
    {
        match self {
            WaveformResolution::Thumbnail => 256,
            WaveformResolution::Standard => 2048,
            WaveformResolution::High => 8192,
            WaveformResolution::Full => 0,
        }
    }

    /// The preset sample count as a mathematical value.
    pub open spec fn spec_sample_count(self) -> int {
        match self {
            WaveformResolution::Thumbnail => 256,
            WaveformResolution::Standard => 2048,
            WaveformResolution::High => 8192,
            WaveformResolution::Full => 0,
        }
    }
}

/// The digest the hashing routine computes for a byte string.  The digest
/// is a pure function of the bytes alone.
pub uninterp spec fn sha256_of(bytes: Seq<u8>) -> Seq<u8>;

/// The lower-case hexadecimal rendering of a byte string: two digits per
/// byte, high nibble first.
pub open spec fn hex_of(bytes: Seq<u8>) -> Seq<char> {
    Seq::new(
        2 * bytes.len(),
        |i: int|
            if i % 2 == 0 {
                hex_digit(bytes[i / 2] as int / 16)
            } else {
                hex_digit(bytes[i / 2] as int % 16)
            },
    )
}

/// Relies on sha2's `Sha256::digest`: the 32-byte digest of the input,
/// depending on the input bytes alone.
#[verifier::external_body]
fn sha256_digest(data: &[u8]) -> (r: Vec<u8>)
    ensures
        r@ == sha256_of(data@),
        r@.len() == 32,
{
    sha2::Sha256::digest(data).to_vec()
}

/// Relies on hex's `encode`: the lower-case hexadecimal rendering of the
/// input, two digits per byte.
#[verifier::external_body]
fn hex_encode(data: &[u8]) -> (r: String)
    ensures
        r@ == hex_of(data@),
{
    hex::encode(data)
}

impl WaveformResolution {
    /// The tag this resolution carries in cache file names.
    pub open spec fn spec_tag(self) -> Seq<char> {
        match self {
            WaveformResolution::Thumbnail => "thumb"@,
            WaveformResolution::Standard => "std"@,
            WaveformResolution::High => "high"@,
            WaveformResolution::Full => "full"@,
        }
    }

    /// The tag this resolution carries in cache file names.
    pub fn tag(&self) -> (s: &'static str)
        ensures
            s@ == self.spec_tag(),
    {
        match self {
            WaveformResolution::Thumbnail => "thumb",
            WaveformResolution::Standard => "std",
            WaveformResolution::High => "high",
            WaveformResolution::Full => "full",
        }
    }
}

/// The cache file path for an audio file at a resolution: the cache
/// directory, a short hash of the path, and the resolution tag.
pub open spec fn spec_cache_path(dir: Seq<char>, path_bytes: Seq<u8>, res: WaveformResolution) -> Seq<char> {
    dir + "/"@ + hex_of(sha256_of(path_bytes).take(8)) + "_"@ + res.spec_tag() + ".json"@
}

/// Computes waveform previews and remembers where they are cached.
pub struct WaveformGenerator {
    /// The cache directory, or `None` when caching is off.
    pub cache_dir: Option<String>,
}

impl WaveformGenerator {
    /// A generator caching under the given directory.
    pub fn with_cache_dir(cache_dir: String) -> (g: WaveformGenerator)
        ensures
            g.cache_dir matches Some(d) && d@ == cache_dir@,
    {
        WaveformGenerator { cache_dir: Some(cache_dir) }
    }

    /// A generator that never caches.
    pub fn without_cache() -> (g: WaveformGenerator)
        ensures
            g.cache_dir is None,
    {
        WaveformGenerator { cache_dir: None }
    }

    /// The cache file path for `audio_path` at `resolution`: the cache
    /// directory, an eight-byte digest of the path in hexadecimal, and the
    /// resolution tag.  `None` when caching is off.
    pub fn cache_path(&self, audio_path: &str, resolution: WaveformResolution) -> (r: Option<
        String,
    >)
        ensures
            r is Some <==> self.cache_dir is Some,
            r matches Some(p) ==> p@ == spec_cache_path(
                self.cache_dir->0@,
                audio_path.spec_bytes(),
                resolution,
            ),
    {
        match &self.cache_dir {
            None => None,
            Some(dir) => {
                let digest: Vec<u8> = sha256_digest(audio_path.as_bytes());
                let head: &[u8] = digest.as_slice();
                let hash: String = hex_encode(&head[0..8]);
                proof {
                    assert(head@.subrange(0, 8) =~= sha256_of(audio_path.spec_bytes()).take(8));
                }
                let mut p: String = dir.clone();
                p.append("/");
                p.append(hash.as_str());
                p.append("_");
                p.append(resolution.tag());
                p.append(".json");
                Some(p)
            },
        }
    }
}

} // verus!

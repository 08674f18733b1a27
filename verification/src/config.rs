//! The configuration of an installation, and the choice of its salt.

use vstd::prelude::*;
use rand::RngCore;

verus! {

/// How files are stored in a package's ZIP archive.
#[derive(Debug, Clone, Copy, PartialEq, Eq, Structural)]
pub enum Compression {
    Stored,
    Deflated,
}

/// The configuration of an installation. Paths are held as text.
#[derive(Debug, Clone)]
pub struct Config {
    pub drop_folder: String,
    pub home_dir: String,
    pub media_dir: String,
    pub packages_dir: String,
    pub tmp_dir: String,
    pub use_saf: bool,
    pub saf_uri: Option<String>,
    pub max_restarts: u32,
    pub backoff_base_ms: u64,
    pub compression_method: String,
    pub odk_reference_path: String,
}

/// The compression that a configured method name selects: `Stored` for
/// exactly "Stored", `Deflated` for anything else.
pub open spec fn spec_compression(name: Seq<char>) -> Compression {
    if name == "Stored"@ {
        Compression::Stored
    } else {
        Compression::Deflated
    }
}

impl Config {
    /// The configuration written for a fresh installation: the given
    /// directories, SAF off, 3 restarts, a 1000 ms back-off base and
    /// Deflated compression.
    pub fn with_defaults(
        drop_folder: String,
        home_dir: String,
        media_dir: String,
        packages_dir: String,
        tmp_dir: String,
        odk_reference_path: String,
    ) -> (cfg: Config)
        ensures
            cfg.drop_folder == drop_folder,
            cfg.home_dir == home_dir,
            cfg.media_dir == media_dir,
            cfg.packages_dir == packages_dir,
            cfg.tmp_dir == tmp_dir,
            cfg.odk_reference_path == odk_reference_path,
            !cfg.use_saf,
            cfg.saf_uri is None,
            cfg.max_restarts == 3,
            cfg.backoff_base_ms == 1000,
            cfg.compression_method@ == "Deflated"@,
    {
        Config {
            drop_folder,
            home_dir,
            media_dir,
            packages_dir,
            tmp_dir,
            use_saf: false,
            saf_uri: None,
            max_restarts: 3,
            backoff_base_ms: 1000,
            compression_method: "Deflated".to_owned(),
            odk_reference_path,
        }
    }

    /// The configuration in test mode: the drop folder and the ODK reference
    /// root are replaced by the test locations; everything else is kept.
    pub fn with_test_paths(self, drop_folder: String, odk_reference_path: String) -> (cfg: Config)
        ensures
            cfg.drop_folder == drop_folder,
            cfg.odk_reference_path == odk_reference_path,
            cfg.home_dir == self.home_dir,
            cfg.media_dir == self.media_dir,
            cfg.packages_dir == self.packages_dir,
            cfg.tmp_dir == self.tmp_dir,
            cfg.use_saf == self.use_saf,
            cfg.saf_uri == self.saf_uri,
            cfg.max_restarts == self.max_restarts,
            cfg.backoff_base_ms == self.backoff_base_ms,
            cfg.compression_method == self.compression_method,
    {
        Config { drop_folder, odk_reference_path, ..self }
    }

    /// Returns the compression method to use for ZIP files.
    pub fn compression_method(&self) -> (c: Compression)
        ensures
            c == spec_compression(self.compression_method@),
    {
        let stored = "Stored".to_owned();
        if self.compression_method == stored {
            Compression::Stored
        } else {
            Compression::Deflated
        }
    }

    /// Returns true if SAF simulation should be used (use_saf is true and no URI is provided).
    pub fn saf_simulation(&self) -> (b: bool)
        ensures
            b == (self.use_saf && self.saf_uri is None),
    {
        self.use_saf && self.saf_uri.is_none()
    }

    /// Whether the ODK reference root is scanned and watched besides the
    /// drop folder: in test mode, or when SAF is simulated.
    pub fn watches_odk_root(&self, test_mode: bool) -> (b: bool)
        ensures
            b == (test_mode || (self.use_saf && self.saf_uri is None)),
    {
        test_mode || self.saf_simulation()
    }
}

/// Where the salt of an installation comes from.
pub enum Salt {
    /// The stored salt, which was well-formed.
    Stored([u8; 32]),
    /// A freshly generated salt, to be stored.
    Fresh([u8; 32]),
}

/// 32 random bytes from `rand::thread_rng()` (`RngCore::fill_bytes`).
/// Nothing is promised of their value.
#[verifier::external_body]
fn random_salt() -> (salt: [u8; 32]) {
    let mut salt = [0u8; 32];
    rand::thread_rng().fill_bytes(&mut salt);
    salt
}

/// Chooses the installation's salt from what is stored: the stored bytes
/// where there are exactly 32 of them, else a fresh random salt.
pub fn choose_salt(stored: Option<&[u8]>) -> (s: Salt)
    ensures
        match stored {
            Some(data) if data@.len() == 32 => s matches Salt::Stored(arr) && arr@ == data@,
            _ => s is Fresh,
        },
{
    match stored {
        Some(data) => {
            if data.len() == 32 {
                let mut arr = [0u8; 32];
                let mut i: usize = 0;
                while i < 32
                    invariant
                        data@.len() == 32,
                        i <= 32,
                        forall|j: int| 0 <= j < i ==> arr@[j] == data@[j],
                    decreases 32 - i,
                {
                    arr[i] = data[i];
                    i = i + 1;
                }
                assert(arr@ =~= data@);
                return Salt::Stored(arr);
            }
        },
        None => {},
    }
    Salt::Fresh(random_salt())
}

} // verus!

//! Where a file's backup is kept: under the profile, named by the SHA-256
//! of the file's absolute path in lower-case hex.
use crate::ai::{fill, fill_template, keys1, Ai};
use sha2::{Digest, Sha256};
use vstd::string::StringSliceAdditionalSpecFns;
use vstd::prelude::*;

verus! {

broadcast use vstd::std_specs::vec::group_vec_axioms;

/// The SHA-256 digest of `data`.
pub uninterp spec fn sha256_of(data: Seq<u8>) -> Seq<u8>;

/// `sha2::Sha256::digest` (through `sha2::Digest`): the 32-byte SHA-256
/// digest of `data`.
#[verifier::external_body]
fn sha256_digest(data: &[u8]) -> (r: Vec<u8>)
    ensures
        r@ == sha256_of(data@),
        r@.len() == 32,
{
    Sha256::digest(data).to_vec()
}

/// The lower-case hex digit of `n < 16`.
pub open spec fn hex_digit(n: u8) -> char {
    if n < 10 {
        (('0' as u8) + n) as char
    } else {
        (('a' as u8) + (n - 10)) as char
    }
}

/// `data` in lower-case hex, two digits per byte, high digit first.
pub open spec fn hex_text(data: Seq<u8>) -> Seq<char>
    decreases data.len(),
{
    if data.len() == 0 {
        seq![]
    } else {
        hex_text(data.drop_last()) + seq![hex_digit(data.last() / 16), hex_digit(data.last() % 16)]
    }
}

/// `hex::encode`: `data` in lower-case hex (see `hex_text`).
#[verifier::external_body]
fn hex_encode(data: &[u8]) -> (r: String)
    ensures
        r@ == hex_text(data@),
{
    hex::encode(data)
}

/// The SHA-256 of the UTF-8 bytes of `input`, in lower-case hex.
pub fn string_to_sha256(input: &str) -> (r: String)
    ensures
        r@ == hex_text(sha256_of(input.spec_bytes())),
{
    let bytes = input.as_bytes();
    let d = sha256_digest(bytes);
    hex_encode(d.as_slice())
}

impl Ai {
    /// The backup path of the file whose absolute path is `abs_path`, before
    /// `~` is expanded: `backup-path` (default
    /// `%profile-path%/backup/%origin-file-hash%`) with the profile path and
    /// the path's hash filled in, then every `default` replaced by the chat.
    pub open spec fn backup_path_of(&self, abs_path: &str) -> Seq<char> {
        fill(
            self.cfg_str("backup-path"@, "%profile-path%/backup/%origin-file-hash%"@),
            seq![
                ("%profile-path%"@, self.profile_path_of()),
                ("%origin-file-hash%"@, hex_text(sha256_of(abs_path.spec_bytes()))),
                ("default"@, self.chat@),
            ],
        )
    }

    /// The backup path of the file at `abs_path` (see `backup_path_of`).
    pub fn get_backup_path(&self, abs_path: &str) -> (r: String)
        ensures
            r@ == self.backup_path_of(abs_path),
    {
        let hash = string_to_sha256(abs_path);
        let mut pairs: Vec<(String, String)> = Vec::new();
        pairs.push(("%profile-path%".to_owned(), self.profile_path()));
        pairs.push(("%origin-file-hash%".to_owned(), hash));
        pairs.push(("default".to_owned(), self.chat.clone()));
        let ks = keys1("backup-path");
        proof {
            reveal_strlit("%profile-path%");
            reveal_strlit("%origin-file-hash%");
            reveal_strlit("default");
            assert(crate::chat::pairs_view(pairs@) =~= seq![
                ("%profile-path%"@, self.profile_path_of()),
                ("%origin-file-hash%"@, hex_text(sha256_of(abs_path.spec_bytes()))),
                ("default"@, self.chat@),
            ]);
        }
        let t = self.get_config_str(ks.as_slice(), "%profile-path%/backup/%origin-file-hash%");
        fill_template(t.as_str(), &pairs)
    }
}

} // verus!

//! The gateway's TLS files on disk: where they lie, what is done about those that
//! exist, and the steps by which new ones are put in place.

use vstd::prelude::*;
use vstd::string::*;
use vstd::utf8::*;
use crate::certgen::{CertgenError, CertgenErrorView, PkiBundle};
use crate::paths::{join, join_path};
use crate::text::joined;
use crate::utf8::{lossy_text, read_lossy};

verus! {

/// What is done in local mode.
#[derive(Debug, PartialEq, Eq, Structural, Clone, Copy)]
pub enum LocalAction {
    Skip,
    PartialState,
    Create,
}

/// What is done, given how many of the six files exist.
pub fn decide_local(present: usize) -> (r: LocalAction)
    ensures
        r == LocalAction::Skip <==> present == 6,
        r == LocalAction::Create <==> present == 0,
        r == LocalAction::PartialState <==> present != 6 && present != 0,
{
    match present {
        6 => LocalAction::Skip,
        0 => LocalAction::Create,
        _ => LocalAction::PartialState,
    }
}

/// Where the files lie:
///
/// ```text
/// <dir>/ca.crt
/// <dir>/ca.key
/// <dir>/server/tls.crt
/// <dir>/server/tls.key
/// <dir>/client/tls.crt
/// <dir>/client/tls.key
/// ```
#[derive(Debug, PartialEq, Eq)]
pub struct LocalPaths {
    pub ca_crt: Vec<u8>,
    pub ca_key: Vec<u8>,
    pub server_dir: Vec<u8>,
    pub server_crt: Vec<u8>,
    pub server_key: Vec<u8>,
    pub client_dir: Vec<u8>,
    pub client_crt: Vec<u8>,
    pub client_key: Vec<u8>,
}

/// [`LocalPaths`] as mathematical values.
pub struct LocalPathsView {
    pub ca_crt: Seq<u8>,
    pub ca_key: Seq<u8>,
    pub server_dir: Seq<u8>,
    pub server_crt: Seq<u8>,
    pub server_key: Seq<u8>,
    pub client_dir: Seq<u8>,
    pub client_crt: Seq<u8>,
    pub client_key: Seq<u8>,
}

/// The path of `name` under `dir`.
pub open spec fn under(dir: Seq<u8>, name: Seq<char>) -> Seq<u8> {
    join(dir, encode_utf8(name))
}

/// Where the files lie under `dir`.
pub open spec fn layout(dir: Seq<u8>) -> LocalPathsView {
    LocalPathsView {
        ca_crt: under(dir, "ca.crt"@),
        ca_key: under(dir, "ca.key"@),
        server_dir: under(dir, "server"@),
        server_crt: under(under(dir, "server"@), "tls.crt"@),
        server_key: under(under(dir, "server"@), "tls.key"@),
        client_dir: under(dir, "client"@),
        client_crt: under(under(dir, "client"@), "tls.crt"@),
        client_key: under(under(dir, "client"@), "tls.key"@),
    }
}

impl LocalPathsView {
    /// The six files.
    pub open spec fn files(self) -> Seq<Seq<u8>> {
        seq![
            self.ca_crt,
            self.ca_key,
            self.server_crt,
            self.server_key,
            self.client_crt,
            self.client_key,
        ]
    }
}

/// How many are true.
pub open spec fn count_true(flags: Seq<bool>) -> nat
    decreases flags.len(),
{
    if flags.len() == 0 {
        0
    } else {
        count_true(flags.drop_last()) + if flags.last() {
            1nat
        } else {
            0nat
        }
    }
}

/// Whether all are true.
pub open spec fn all_true(flags: Seq<bool>) -> bool {
    forall|i: int| 0 <= i < flags.len() ==> #[trigger] flags[i]
}

/// Whether none is true.
pub open spec fn none_true(flags: Seq<bool>) -> bool {
    forall|i: int| 0 <= i < flags.len() ==> !#[trigger] flags[i]
}

/// The path of `name` under `dir`.
fn path_under(dir: &[u8], name: &str) -> (r: Vec<u8>)
    ensures
        r@ == under(dir@, name@),
{
    join_path(dir, name.as_bytes())
}

impl LocalPaths {
    pub open spec fn view(&self) -> LocalPathsView {
        LocalPathsView {
            ca_crt: self.ca_crt@,
            ca_key: self.ca_key@,
            server_dir: self.server_dir@,
            server_crt: self.server_crt@,
            server_key: self.server_key@,
            client_dir: self.client_dir@,
            client_crt: self.client_crt@,
            client_key: self.client_key@,
        }
    }

    /// Where the files lie under `dir`.
    pub fn resolve(dir: &[u8]) -> (r: Self)
        ensures
            r@ == layout(dir@),
    {
        let server_dir = path_under(dir, "server");
        let client_dir = path_under(dir, "client");
        LocalPaths {
            ca_crt: path_under(dir, "ca.crt"),
            ca_key: path_under(dir, "ca.key"),
            server_crt: path_under(server_dir.as_slice(), "tls.crt"),
            server_key: path_under(server_dir.as_slice(), "tls.key"),
            server_dir,
            client_crt: path_under(client_dir.as_slice(), "tls.crt"),
            client_key: path_under(client_dir.as_slice(), "tls.key"),
            client_dir,
        }
    }

    /// The six files.
    pub fn all_files(&self) -> (r: [&Vec<u8>; 6])
        ensures
            forall|i: int| 0 <= i < 6 ==> (#[trigger] r@[i])@ == self@.files()[i],
    {
        [
            &self.ca_crt,
            &self.ca_key,
            &self.server_crt,
            &self.server_key,
            &self.client_crt,
            &self.client_key,
        ]
    }

    /// How many of the six files exist, where `present` says of each whether it
    /// does.
    pub fn existence_count(present: &[bool; 6]) -> (r: usize)
        ensures
            r == count_true(present@),
            r <= 6,
    {
        let mut count: usize = 0;
        let mut i: usize = 0;
        while i < 6
            invariant
                i <= 6,
                count <= i,
                count == count_true(present@.take(i as int)),
            decreases 6 - i,
        {
            assert(present@.take(i + 1).drop_last() == present@.take(i as int));
            assert(present@.take(i + 1).last() == present@[i as int]);
            if present[i] {
                count = count + 1;
            }
            i = i + 1;
        }
        assert(present@.take(6) == present@);
        count
    }
}

/// What to do in local mode about the directory `dir`.
#[derive(Debug, PartialEq, Eq)]
pub enum LocalStep {
    /// All files exist: read them.
    ReadExisting,
    /// None does: generate and write them.
    Generate,
}

/// What to do in local mode, where `present` says of each of the six files
/// whether it exists.
pub fn local_step(dir: &Vec<u8>, present: &[bool; 6]) -> (r: Result<LocalStep, CertgenError>)
    ensures
        if all_true(present@) {
            r == Ok::<LocalStep, CertgenError>(LocalStep::ReadExisting)
        } else if none_true(present@) {
            r == Ok::<LocalStep, CertgenError>(LocalStep::Generate)
        } else {
            r matches Err(e) && e@ == (CertgenErrorView::PartialFiles { dir: dir@ })
        },
{
    proof {
        lemma_count_true(present@);
    }
    match decide_local(LocalPaths::existence_count(present)) {
        LocalAction::Skip => Ok(LocalStep::ReadExisting),
        LocalAction::Create => Ok(LocalStep::Generate),
        LocalAction::PartialState => Err(CertgenError::PartialFiles { dir: dir.clone() }),
    }
}

/// A count is zero where nothing is true, and full where everything is.
proof fn lemma_count_true(flags: Seq<bool>)
    ensures
        count_true(flags) <= flags.len(),
        count_true(flags) == 0 <==> none_true(flags),
        count_true(flags) == flags.len() <==> all_true(flags),
    decreases flags.len(),
{
    if flags.len() > 0 {
        let rest = flags.drop_last();
        let last = flags.len() - 1;
        lemma_count_true(rest);
        assert(forall|i: int| 0 <= i < last ==> rest[i] == flags[i]);
        assert(all_true(flags) == (all_true(rest) && flags[last])) by {
            if all_true(rest) && flags[last] {
                assert forall|i: int| 0 <= i < flags.len() implies #[trigger] flags[i] by {
                    if i < last {
                        assert(rest[i]);
                    }
                }
            }
        }
        assert(none_true(flags) == (none_true(rest) && !flags[last])) by {
            if none_true(rest) && !flags[last] {
                assert forall|i: int| 0 <= i < flags.len() implies !#[trigger] flags[i] by {
                    if i < last {
                        assert(!rest[i]);
                    }
                }
            }
        }
    }
}

/// The contents of the six files, in the order of [`LocalPaths::all_files`].
pub open spec fn contents(bundle: PkiBundle) -> Seq<Seq<char>> {
    seq![
        bundle.ca_cert_pem@,
        bundle.ca_key_pem@,
        bundle.server_cert_pem@,
        bundle.server_key_pem@,
        bundle.client_cert_pem@,
        bundle.client_key_pem@,
    ]
}

/// The bundle that the six files make up, given what each holds in the order of
/// [`LocalPaths::all_files`].
pub fn read_local_bundle(files: &[String; 6]) -> (r: PkiBundle)
    ensures
        contents(r) == files@.map_values(|s: String| s@),
{
    let r = PkiBundle {
        ca_cert_pem: files[0].clone(),
        ca_key_pem: files[1].clone(),
        server_cert_pem: files[2].clone(),
        server_key_pem: files[3].clone(),
        client_cert_pem: files[4].clone(),
        client_key_pem: files[5].clone(),
    };
    assert(contents(r) =~= files@.map_values(|s: String| s@));
    r
}

/// A copy of the client's files for the CLI, which looks for them under the name of
/// a gateway.
#[derive(Debug, PartialEq, Eq)]
pub struct CliCopy {
    pub gateway: String,
    pub bundle: PkiBundle,
}

/// What is left to do in local mode once a bundle is at hand.
#[derive(Debug, PartialEq, Eq)]
pub struct LocalWork {
    /// Whether the bundle is new and its six files are to be put in place first.
    pub write_files: bool,
    /// The copy to store, whether or not the bundle is new: the CLI's copy may be
    /// gone while the gateway's files are there.
    pub copy: CliCopy,
}

/// What is left to do once the step has led to `bundle`.
pub fn local_work(step: LocalStep, bundle: PkiBundle) -> (r: LocalWork)
    ensures
        r.write_files == (step is Generate),
        r.copy.gateway@ == "openshell"@,
        r.copy.bundle == bundle,
{
    let write_files: bool = match step {
        LocalStep::Generate => true,
        LocalStep::ReadExisting => false,
    };
    LocalWork { write_files, copy: CliCopy { gateway: "openshell".to_string(), bundle } }
}

/// How local mode ends once the files are in place. A copy that could not be stored
/// is no failure.
#[derive(Debug, PartialEq, Eq)]
pub enum LocalOutcome {
    /// All is done.
    Done,
    /// All is done but for the copy, of which this warning tells.
    DoneWithWarning(String),
}

/// How local mode ends, given whether the copy for the CLI was stored.
pub fn local_outcome(stored: bool) -> (r: LocalOutcome)
    ensures
        if stored {
            r is Done
        } else {
            r matches LocalOutcome::DoneWithWarning(text) && text@
                == "failed to copy client mTLS materials for CLI auto-discovery"@
        },
{
    if stored {
        LocalOutcome::Done
    } else {
        LocalOutcome::DoneWithWarning(
            "failed to copy client mTLS materials for CLI auto-discovery".to_string(),
        )
    }
}

/// What is said where a file cannot be read.
pub fn read_failure(path: &[u8]) -> (r: String)
    ensures
        r@ == "failed to read "@ + lossy_text(path@),
{
    joined("failed to read ", read_lossy(path).as_str())
}

} // verus!

//! Bootstrapping the gateway's TLS files: which mode is asked for, what is to be
//! done about what is already there, and what is written where.
//!
//! In Kubernetes mode the files go into two `kubernetes.io/tls` Secrets, in local
//! mode under a directory. Either way: where all targets exist nothing is
//! generated, where some do it is an error, and where none does all are made.

use vstd::prelude::*;
use vstd::string::*;
use vstd::utf8::*;
use crate::text::{joined, same_text};
use crate::utf8::{lossy_text, read_lossy};

verus! {

/// What `generate-certs` was called with.
#[derive(Debug)]
pub struct CertgenArgs {
    /// Where to write the files; Kubernetes mode where it is not given.
    pub output_dir: Option<Vec<u8>>,
    /// The namespace of the Secrets.
    pub namespace: Option<String>,
    /// The name of the server's Secret.
    pub server_secret_name: Option<String>,
    /// The name of the client's Secret.
    pub client_secret_name: Option<String>,
    /// Further names for the server certificate.
    pub server_sans: Vec<String>,
    /// Whether to print the files instead of writing them.
    pub dry_run: bool,
}

/// What is asked for.
#[derive(Debug)]
pub enum RunMode<'a> {
    /// Print the files.
    DryRun,
    /// Write them under this directory.
    Local(&'a Vec<u8>),
    /// Put them into Secrets.
    Kubernetes,
}

impl CertgenArgs {
    /// What is asked for: printing goes before a directory, and a directory before
    /// Kubernetes.
    pub fn mode(&self) -> (r: RunMode<'_>)
        ensures
            r == (if self.dry_run {
                RunMode::DryRun
            } else {
                match self.output_dir {
                    Some(dir) => RunMode::Local(&dir),
                    None => RunMode::Kubernetes,
                }
            }),
    {
        if self.dry_run {
            return RunMode::DryRun;
        }
        match &self.output_dir {
            Some(dir) => RunMode::Local(dir),
            None => RunMode::Kubernetes,
        }
    }
}

/// Why certificates are not generated.
#[derive(Debug, PartialEq, Eq)]
pub enum CertgenError {
    /// No namespace is given.
    NamespaceRequired,
    /// No name for the server's Secret is given.
    ServerSecretNameRequired,
    /// No name for the client's Secret is given.
    ClientSecretNameRequired,
    /// Just one of the two Secrets exists.
    PartialSecrets { namespace: String, server_name: String, client_name: String },
    /// Some of the files exist, but not all.
    PartialFiles { dir: Vec<u8> },
}

/// A [`CertgenError`] as a mathematical value.
pub enum CertgenErrorView {
    NamespaceRequired,
    ServerSecretNameRequired,
    ClientSecretNameRequired,
    PartialSecrets { namespace: Seq<char>, server_name: Seq<char>, client_name: Seq<char> },
    PartialFiles { dir: Seq<u8> },
}

impl CertgenErrorView {
    /// The message shown for the error, with a way to recover where there is one.
    pub open spec fn message(self) -> Seq<char> {
        match self {
            CertgenErrorView::NamespaceRequired =>
                "--namespace is required (or set POD_NAMESPACE)"@,
            CertgenErrorView::ServerSecretNameRequired => "--server-secret-name is required"@,
            CertgenErrorView::ClientSecretNameRequired => "--client-secret-name is required"@,
            CertgenErrorView::PartialSecrets { namespace, server_name, client_name } =>
                "partial PKI state in namespace "@ + namespace + ": exactly one of "@ + server_name
                    + " / "@ + client_name
                    + " exists. Recover with: kubectl delete secret -n "@ + namespace + " "@
                    + server_name + " "@ + client_name,
            CertgenErrorView::PartialFiles { dir } => "partial PKI state in "@ + lossy_text(dir)
                + ": some files exist but not all. Recover with: rm -rf "@ + lossy_text(dir)
                + " (the gateway will regenerate on next start)"@,
        }
    }
}

impl CertgenError {
    pub open spec fn view(&self) -> CertgenErrorView {
        match self {
            CertgenError::NamespaceRequired => CertgenErrorView::NamespaceRequired,
            CertgenError::ServerSecretNameRequired => CertgenErrorView::ServerSecretNameRequired,
            CertgenError::ClientSecretNameRequired => CertgenErrorView::ClientSecretNameRequired,
            CertgenError::PartialSecrets { namespace, server_name, client_name } =>
                CertgenErrorView::PartialSecrets {
                namespace: namespace@,
                server_name: server_name@,
                client_name: client_name@,
            },
            CertgenError::PartialFiles { dir } => CertgenErrorView::PartialFiles { dir: dir@ },
        }
    }

    /// The message shown for the error.
    pub fn message(&self) -> (r: String)
        ensures
            r@ == self@.message(),
    {
        match self {
            CertgenError::NamespaceRequired =>
                "--namespace is required (or set POD_NAMESPACE)".to_string(),
            CertgenError::ServerSecretNameRequired =>
                "--server-secret-name is required".to_string(),
            CertgenError::ClientSecretNameRequired =>
                "--client-secret-name is required".to_string(),
            CertgenError::PartialSecrets { namespace, server_name, client_name } => {
                let mut r = joined("partial PKI state in namespace ", namespace.as_str());
                r.append(": exactly one of ");
                r.append(server_name.as_str());
                r.append(" / ");
                r.append(client_name.as_str());
                r.append(" exists. Recover with: kubectl delete secret -n ");
                r.append(namespace.as_str());
                r.append(" ");
                r.append(server_name.as_str());
                r.append(" ");
                r.append(client_name.as_str());
                r
            },
            CertgenError::PartialFiles { dir } => {
                let shown = read_lossy(dir.as_slice());
                let mut r = joined("partial PKI state in ", shown.as_str());
                r.append(": some files exist but not all. Recover with: rm -rf ");
                r.append(shown.as_str());
                r.append(" (the gateway will regenerate on next start)");
                r
            },
        }
    }
}

/// The certificates and keys of a gateway, in PEM.
#[derive(Debug, PartialEq, Eq)]
pub struct PkiBundle {
    pub ca_cert_pem: String,
    pub ca_key_pem: String,
    pub server_cert_pem: String,
    pub server_key_pem: String,
    pub client_cert_pem: String,
    pub client_key_pem: String,
}

/// What is done in Kubernetes mode.
#[derive(Debug, PartialEq, Eq, Structural, Clone, Copy)]
pub enum K8sAction {
    SkipExists,
    PartialState,
    Create,
}

/// What is done, given which Secrets exist.
pub fn decide_k8s(server_exists: bool, client_exists: bool) -> (r: K8sAction)
    ensures
        r == K8sAction::SkipExists <==> server_exists && client_exists,
        r == K8sAction::Create <==> !server_exists && !client_exists,
        r == K8sAction::PartialState <==> server_exists != client_exists,
{
    match (server_exists, client_exists) {
        (true, true) => K8sAction::SkipExists,
        (false, false) => K8sAction::Create,
        _ => K8sAction::PartialState,
    }
}

/// The Secrets that Kubernetes mode is about.
#[derive(Debug, PartialEq, Eq)]
pub struct KubernetesTarget {
    pub namespace: String,
    pub server_name: String,
    pub client_name: String,
}

/// The Secrets that the arguments name. All three names have to be given.
pub fn kubernetes_target(args: &CertgenArgs) -> (r: Result<KubernetesTarget, CertgenError>)
    ensures
        match (args.namespace, args.server_secret_name, args.client_secret_name) {
            (None, _, _) => r matches Err(e) && e@ == CertgenErrorView::NamespaceRequired,
            (_, None, _) => r matches Err(e) && e@ == CertgenErrorView::ServerSecretNameRequired,
            (_, _, None) => r matches Err(e) && e@ == CertgenErrorView::ClientSecretNameRequired,
            (Some(namespace), Some(server), Some(client)) => r matches Ok(target)
                && target.namespace@ == namespace@ && target.server_name@ == server@
                && target.client_name@ == client@,
        },
{
    let namespace = match &args.namespace {
        Some(name) => name.clone(),
        None => {
            return Err(CertgenError::NamespaceRequired);
        },
    };
    let server_name = match &args.server_secret_name {
        Some(name) => name.clone(),
        None => {
            return Err(CertgenError::ServerSecretNameRequired);
        },
    };
    let client_name = match &args.client_secret_name {
        Some(name) => name.clone(),
        None => {
            return Err(CertgenError::ClientSecretNameRequired);
        },
    };
    Ok(KubernetesTarget { namespace, server_name, client_name })
}

/// A Secret that holds a certificate, its key and the CA certificate.
#[derive(Debug, PartialEq, Eq)]
pub struct TlsSecret {
    pub name: String,
    pub type_: String,
    /// The keys and what they hold. No key occurs twice.
    pub data: Vec<(String, Vec<u8>)>,
}

/// A [`TlsSecret`] as a mathematical value.
pub struct SecretView {
    pub name: Seq<char>,
    pub type_: Seq<char>,
    pub data: Map<Seq<char>, Seq<u8>>,
}

/// The map that the entries of a Secret make up.
pub open spec fn data_map(data: Seq<(String, Vec<u8>)>) -> Map<Seq<char>, Seq<u8>>
    decreases data.len(),
{
    if data.len() == 0 {
        Map::empty()
    } else {
        data_map(data.drop_last()).insert(data.last().0@, data.last().1@)
    }
}

impl TlsSecret {
    pub open spec fn view(&self) -> SecretView {
        SecretView { name: self.name@, type_: self.type_@, data: data_map(self.data@) }
    }

    /// What the Secret holds under `key`.
    pub fn get(&self, key: &str) -> (r: Option<&Vec<u8>>)
        ensures
            match r {
                Some(value) => self@.data.contains_key(key@) && self@.data[key@] == value@,
                None => !self@.data.contains_key(key@),
            },
    {
        let mut n: usize = self.data.len();
        assert(self.data@.take(n as int) == self.data@);
        while n > 0
            invariant
                n <= self.data@.len(),
                data_map(self.data@).contains_key(key@) == data_map(
                    self.data@.take(n as int),
                ).contains_key(key@),
                data_map(self.data@)[key@] == data_map(self.data@.take(n as int))[key@],
            decreases n,
        {
            let ghost seen = self.data@.take(n as int);
            assert(seen.last() == self.data@[n - 1]);
            assert(seen.drop_last() == self.data@.take(n - 1));
            if same_text(self.data[n - 1].0.as_str(), key) {
                return Some(&self.data[n - 1].1);
            }
            n = n - 1;
        }
        None
    }
}

/// The Secret with these files.
pub open spec fn tls_secret_view(
    name: Seq<char>,
    crt_pem: Seq<char>,
    key_pem: Seq<char>,
    ca_pem: Seq<char>,
) -> SecretView {
    SecretView {
        name,
        type_: "kubernetes.io/tls"@,
        data: map![
            "tls.crt"@ => encode_utf8(crt_pem),
            "tls.key"@ => encode_utf8(key_pem),
            "ca.crt"@ => encode_utf8(ca_pem),
        ],
    }
}

/// The Secret of the server.
pub open spec fn server_secret_view(name: Seq<char>, bundle: PkiBundle) -> SecretView {
    tls_secret_view(
        name,
        bundle.server_cert_pem@,
        bundle.server_key_pem@,
        bundle.ca_cert_pem@,
    )
}

/// The Secret of the client.
pub open spec fn client_secret_view(name: Seq<char>, bundle: PkiBundle) -> SecretView {
    tls_secret_view(
        name,
        bundle.client_cert_pem@,
        bundle.client_key_pem@,
        bundle.ca_cert_pem@,
    )
}

/// A TLS Secret holds three things and no more: the certificate, its key and the
/// CA certificate, each under its own key.
pub proof fn lemma_tls_secret_holds_three(
    name: Seq<char>,
    crt_pem: Seq<char>,
    key_pem: Seq<char>,
    ca_pem: Seq<char>,
)
    ensures
        ({
            let data = tls_secret_view(name, crt_pem, key_pem, ca_pem).data;
            &&& data.dom() == set!["tls.crt"@, "tls.key"@, "ca.crt"@]
            &&& data.len() == 3
            &&& data["tls.crt"@] == encode_utf8(crt_pem)
            &&& data["tls.key"@] == encode_utf8(key_pem)
            &&& data["ca.crt"@] == encode_utf8(ca_pem)
        }),
{
    reveal_strlit("tls.crt");
    reveal_strlit("tls.key");
    reveal_strlit("ca.crt");
    assert("tls.crt"@[4] == 'c' && "tls.key"@[4] == 'k');
    assert("tls.crt"@.len() == 7 && "tls.key"@.len() == 7 && "ca.crt"@.len() == 6);
    let data = tls_secret_view(name, crt_pem, key_pem, ca_pem).data;
    assert(data.dom() =~= set!["tls.crt"@, "tls.key"@, "ca.crt"@]);
}

/// The key of the CA goes into no Secret and is not printed: two bundles that
/// differ in nothing else give the same Secrets and the same print.
pub proof fn lemma_ca_key_stays_private(a: PkiBundle, b: PkiBundle, name: Seq<char>)
    requires
        a.ca_cert_pem@ == b.ca_cert_pem@,
        a.server_cert_pem@ == b.server_cert_pem@,
        a.server_key_pem@ == b.server_key_pem@,
        a.client_cert_pem@ == b.client_cert_pem@,
        a.client_key_pem@ == b.client_key_pem@,
    ensures
        server_secret_view(name, a) == server_secret_view(name, b),
        client_secret_view(name, a) == client_secret_view(name, b),
        printed(a) == printed(b),
{
}

/// The bytes of `s`.
fn bytes_of(s: &str) -> (r: Vec<u8>)
    ensures
        r@ == encode_utf8(s@),
{
    let mut r: Vec<u8> = Vec::new();
    r.extend_from_slice(s.as_bytes());
    assert(r@ == encode_utf8(s@));
    r
}

/// The Secret with these files.
pub fn tls_secret(name: &str, crt_pem: &str, key_pem: &str, ca_pem: &str) -> (r: TlsSecret)
    ensures
        r@ == tls_secret_view(name@, crt_pem@, key_pem@, ca_pem@),
        r.data@.len() == 3,
{
    let mut data: Vec<(String, Vec<u8>)> = Vec::new();
    data.push(("tls.crt".to_string(), bytes_of(crt_pem)));
    data.push(("tls.key".to_string(), bytes_of(key_pem)));
    data.push(("ca.crt".to_string(), bytes_of(ca_pem)));
    proof {
        let d = data@;
        assert(d.drop_last().drop_last().drop_last() == Seq::<(String, Vec<u8>)>::empty());
        reveal_with_fuel(data_map, 4);
        assert(data_map(d) =~= tls_secret_view(name@, crt_pem@, key_pem@, ca_pem@).data);
    }
    TlsSecret { name: name.to_string(), type_: "kubernetes.io/tls".to_string(), data }
}

/// What to do in Kubernetes mode. Certificates are needed only once this is known.
#[derive(Debug, PartialEq, Eq)]
pub enum KubernetesPlan {
    /// Both Secrets exist: there is nothing to do.
    Skip,
    /// None does: generate a bundle and create [`kubernetes_secrets`].
    Generate,
}

/// What to do in Kubernetes mode, given which of the two Secrets exist.
pub fn kubernetes_plan(
    target: &KubernetesTarget,
    server_exists: bool,
    client_exists: bool,
) -> (r: Result<KubernetesPlan, CertgenError>)
    ensures
        if server_exists && client_exists {
            r == Ok::<KubernetesPlan, CertgenError>(KubernetesPlan::Skip)
        } else if server_exists || client_exists {
            r matches Err(e) && e@ == (CertgenErrorView::PartialSecrets {
                namespace: target.namespace@,
                server_name: target.server_name@,
                client_name: target.client_name@,
            })
        } else {
            r == Ok::<KubernetesPlan, CertgenError>(KubernetesPlan::Generate)
        },
{
    match decide_k8s(server_exists, client_exists) {
        K8sAction::SkipExists => Ok(KubernetesPlan::Skip),
        K8sAction::PartialState => Err(
            CertgenError::PartialSecrets {
                namespace: target.namespace.clone(),
                server_name: target.server_name.clone(),
                client_name: target.client_name.clone(),
            },
        ),
        K8sAction::Create => Ok(KubernetesPlan::Generate),
    }
}

/// The two Secrets to create, the server's first.
pub fn kubernetes_secrets(target: &KubernetesTarget, bundle: &PkiBundle) -> (r: (
    TlsSecret,
    TlsSecret,
))
    ensures
        r.0@ == server_secret_view(target.server_name@, *bundle),
        r.1@ == client_secret_view(target.client_name@, *bundle),
{
    let server = tls_secret(
        target.server_name.as_str(),
        bundle.server_cert_pem.as_str(),
        bundle.server_key_pem.as_str(),
        bundle.ca_cert_pem.as_str(),
    );
    let client = tls_secret(
        target.client_name.as_str(),
        bundle.client_cert_pem.as_str(),
        bundle.client_key_pem.as_str(),
        bundle.ca_cert_pem.as_str(),
    );
    (server, client)
}

/// A heading, and a file under it.
pub open spec fn section(heading: Seq<char>, pem: Seq<char>) -> Seq<char> {
    heading + "\n"@ + pem + "\n"@
}

/// What is printed of a bundle. The key of the CA is left out.
pub open spec fn printed(bundle: PkiBundle) -> Seq<char> {
    section("# CA certificate"@, bundle.ca_cert_pem@) + section(
        "# Server certificate"@,
        bundle.server_cert_pem@,
    ) + section("# Server key"@, bundle.server_key_pem@) + section(
        "# Client certificate"@,
        bundle.client_cert_pem@,
    ) + section("# Client key"@, bundle.client_key_pem@)
}

/// Adds a heading and a file to `text`.
fn add_section(text: &mut String, heading: &str, pem: &str)
    ensures
        final(text)@ == old(text)@ + section(heading@, pem@),
{
    text.append(heading);
    text.append("\n");
    text.append(pem);
    text.append("\n");
    assert(text@ == old(text)@ + section(heading@, pem@));
}

/// What is printed of a bundle.
pub fn print_bundle(bundle: &PkiBundle) -> (r: String)
    ensures
        r@ == printed(*bundle),
{
    let mut r = "".to_string();
    proof {
        reveal_strlit("");
    }
    add_section(&mut r, "# CA certificate", bundle.ca_cert_pem.as_str());
    add_section(&mut r, "# Server certificate", bundle.server_cert_pem.as_str());
    add_section(&mut r, "# Server key", bundle.server_key_pem.as_str());
    add_section(&mut r, "# Client certificate", bundle.client_cert_pem.as_str());
    add_section(&mut r, "# Client key", bundle.client_key_pem.as_str());
    assert(r@ == printed(*bundle));
    r
}

} // verus!

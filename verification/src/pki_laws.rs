//! What bootstrapping TLS files comes to, call by call: what is done, where files lie,
//! and what they hold.

use vstd::prelude::*;
use vstd::string::*;
use vstd::utf8::*;
use crate::certgen::{
    data_map, decide_k8s, kubernetes_plan, kubernetes_secrets, kubernetes_target,
    lemma_tls_secret_holds_three, print_bundle, tls_secret, CertgenArgs, CertgenError, K8sAction,
    KubernetesPlan, KubernetesTarget, PkiBundle, RunMode, TlsSecret,
};
use crate::install::{
    sibling_temp_dir, temp_dir, views, write_local_bundle, writing, FileOp, FileOpView, OpFailure,
};
use crate::install_laws::{
    is_target, lemma_install_puts_bundle_in_place, lemma_names, run, same_file, FileView, FsView,
};
use crate::local_pki::{
    all_true, contents, count_true, decide_local, layout, local_outcome, local_step, local_work,
    none_true, read_failure, read_local_bundle, LocalAction, LocalOutcome, LocalPaths, LocalStep,
    LocalWork,
};
use crate::paths::{
    before_last, file_name, fixed_part, join_path, last_start, lemma_component_start,
    lemma_last_start_is, parent, sibling, sibling_path, trimmed_path, within,
};
use crate::utf8::lossy_text;

verus! {

/// What is asked for: printing, or else a directory that is given, or else Secrets.
pub proof fn lemma_run_modes(args: CertgenArgs, r: RunMode<'_>)
    requires
        call_ensures(CertgenArgs::mode, (&args,), r),
    ensures
        r is DryRun <==> args.dry_run,
        r is Kubernetes <==> !args.dry_run && args.output_dir is None,
        r matches RunMode::Local(dir) ==> !args.dry_run && args.output_dir == Some(*dir),
{
}

/// Secrets are created where neither exists, left alone where both do, and the state is
/// partial otherwise.
pub proof fn lemma_secret_decisions(server: bool, client: bool, r: K8sAction)
    requires
        call_ensures(decide_k8s, (server, client), r),
    ensures
        r == (if server != client {
            K8sAction::PartialState
        } else if server {
            K8sAction::SkipExists
        } else {
            K8sAction::Create
        }),
{
}

/// Kubernetes mode needs a namespace and the names of both Secrets, and says which of them
/// is missing first. It then is about these and nothing else.
pub proof fn lemma_secret_names(args: &CertgenArgs, r: Result<KubernetesTarget, CertgenError>)
    requires
        call_ensures(kubernetes_target, (args,), r),
    ensures
        r is Ok <==> args.namespace is Some && args.server_secret_name is Some
            && args.client_secret_name is Some,
        r matches Ok(target) ==> {
            &&& target.namespace@ == (args.namespace->0)@
            &&& target.server_name@ == (args.server_secret_name->0)@
            &&& target.client_name@ == (args.client_secret_name->0)@
        },
        r matches Err(e) ==> match e {
            CertgenError::NamespaceRequired => args.namespace is None,
            CertgenError::ServerSecretNameRequired => args.namespace is Some
                && args.server_secret_name is None,
            CertgenError::ClientSecretNameRequired => args.namespace is Some
                && args.server_secret_name is Some && args.client_secret_name is None,
            _ => false,
        },
{
}

/// What is done about the Secrets follows from which of them exist. A partial state is an
/// error that names all that is needed to recover.
pub proof fn lemma_secret_plans(
    target: &KubernetesTarget,
    server: bool,
    client: bool,
    r: Result<KubernetesPlan, CertgenError>,
)
    requires
        call_ensures(kubernetes_plan, (target, server, client), r),
    ensures
        r is Err <==> server != client,
        r matches Ok(plan) ==> (plan is Skip <==> server) && (plan is Generate <==> !server),
        r matches Err(e) ==> match e {
            CertgenError::PartialSecrets { namespace, server_name, client_name } => {
                &&& namespace@ == target.namespace@
                &&& server_name@ == target.server_name@
                &&& client_name@ == target.client_name@
            },
            _ => false,
        },
{
}

/// Whether a Secret has this name and the type of TLS Secrets, and holds just these three
/// files as bytes.
pub open spec fn holds_files(
    secret: TlsSecret,
    name: Seq<char>,
    crt: Seq<char>,
    key: Seq<char>,
    ca: Seq<char>,
) -> bool {
    let data = secret@.data;
    &&& secret.name@ == name
    &&& secret.type_@ == "kubernetes.io/tls"@
    &&& data.dom() == set!["tls.crt"@, "tls.key"@, "ca.crt"@]
    &&& data["tls.crt"@] == encode_utf8(crt)
    &&& data["tls.key"@] == encode_utf8(key)
    &&& data["ca.crt"@] == encode_utf8(ca)
}

/// A TLS Secret holds the certificate, the key and the CA certificate it is made with.
pub proof fn lemma_secret_files(name: &str, crt: &str, key: &str, ca: &str, r: TlsSecret)
    requires
        call_ensures(tls_secret, (name, crt, key, ca), r),
    ensures
        holds_files(r, name@, crt@, key@, ca@),
        r.data@.len() == 3,
{
    lemma_tls_secret_holds_three(name@, crt@, key@, ca@);
}

/// The server's Secret holds the server's certificate and key, the client's those of the
/// client, and both the certificate of the CA; its key is in neither.
pub proof fn lemma_secrets_of_bundle(
    target: &KubernetesTarget,
    bundle: &PkiBundle,
    r: (TlsSecret, TlsSecret),
)
    requires
        call_ensures(kubernetes_secrets, (target, bundle), r),
    ensures
        holds_files(
            r.0,
            target.server_name@,
            bundle.server_cert_pem@,
            bundle.server_key_pem@,
            bundle.ca_cert_pem@,
        ),
        holds_files(
            r.1,
            target.client_name@,
            bundle.client_cert_pem@,
            bundle.client_key_pem@,
            bundle.ca_cert_pem@,
        ),
{
    lemma_tls_secret_holds_three(
        target.server_name@,
        bundle.server_cert_pem@,
        bundle.server_key_pem@,
        bundle.ca_cert_pem@,
    );
    lemma_tls_secret_holds_three(
        target.client_name@,
        bundle.client_cert_pem@,
        bundle.client_key_pem@,
        bundle.ca_cert_pem@,
    );
}

/// What is printed is all but the key of the CA, each part under its heading.
pub proof fn lemma_print(bundle: &PkiBundle, r: String)
    requires
        call_ensures(print_bundle, (bundle,), r),
    ensures
        r@ == "# CA certificate"@ + "\n"@ + bundle.ca_cert_pem@ + "\n"@ + "# Server certificate"@
            + "\n"@ + bundle.server_cert_pem@ + "\n"@ + "# Server key"@ + "\n"@
            + bundle.server_key_pem@ + "\n"@ + "# Client certificate"@ + "\n"@
            + bundle.client_cert_pem@ + "\n"@ + "# Client key"@ + "\n"@ + bundle.client_key_pem@
            + "\n"@,
{
    assert(r@ =~= "# CA certificate"@ + "\n"@ + bundle.ca_cert_pem@ + "\n"@
        + "# Server certificate"@ + "\n"@ + bundle.server_cert_pem@ + "\n"@ + "# Server key"@
        + "\n"@ + bundle.server_key_pem@ + "\n"@ + "# Client certificate"@ + "\n"@
        + bundle.client_cert_pem@ + "\n"@ + "# Client key"@ + "\n"@ + bundle.client_key_pem@
        + "\n"@);
}

/// Six files are all, none means that they are made, and anything else is a partial state.
pub proof fn lemma_file_decisions(present: usize, r: LocalAction)
    requires
        call_ensures(decide_local, (present,), r),
    ensures
        r == (if present == 0 {
            LocalAction::Create
        } else if present == 6 {
            LocalAction::Skip
        } else {
            LocalAction::PartialState
        }),
{
}

/// Existing files are read exactly where none of the six is missing, new ones are made
/// exactly where all are, and otherwise the directory is named as in a partial state.
pub proof fn lemma_local_steps(
    dir: &Vec<u8>,
    present: &[bool; 6],
    r: Result<LocalStep, CertgenError>,
)
    requires
        call_ensures(local_step, (dir, present), r),
    ensures
        (r matches Ok(LocalStep::ReadExisting)) <==> !present@.contains(false),
        (r matches Ok(LocalStep::Generate)) <==> !present@.contains(true),
        r is Err <==> present@.contains(true) && present@.contains(false),
        r matches Err(e) ==> match e {
            CertgenError::PartialFiles { dir: shown } => shown@ == dir@,
            _ => false,
        },
{
    assert(present@.len() == 6);
    if all_true(present@) {
        assert(present@[0] == true);
    }
    if !all_true(present@) {
        let i = choose|i: int| 0 <= i < present@.len() && !#[trigger] present@[i];
        assert(present@[i] == false);
    }
    if !none_true(present@) {
        let i = choose|i: int| 0 <= i < present@.len() && #[trigger] present@[i];
        assert(present@[i] == true);
    }
    if present@.contains(false) {
        let i = choose|i: int| 0 <= i < present@.len() && present@[i] == false;
        assert(!present@[i]);
    }
    if present@.contains(true) {
        let i = choose|i: int| 0 <= i < present@.len() && present@[i] == true;
        assert(present@[i]);
    }
}

/// The files are counted one by one.
pub proof fn lemma_files_counted(present: &[bool; 6], r: usize)
    requires
        call_ensures(LocalPaths::existence_count, (present,), r),
    ensures
        r == one_if(present@[0]) + one_if(present@[1]) + one_if(present@[2]) + one_if(present@[3])
            + one_if(present@[4]) + one_if(present@[5]),
{
    reveal_with_fuel(count_true, 7);
    let s = present@;
    assert(s.len() == 6);
    assert(s.drop_last().drop_last().drop_last().drop_last().drop_last().drop_last().len() == 0);
}

/// One where `flag` is set.
pub open spec fn one_if(flag: bool) -> int {
    if flag {
        1
    } else {
        0
    }
}

/// The files lie under the directory, behind one slash, the server's and the client's in
/// a directory each.
pub proof fn lemma_places(dir: &[u8], r: LocalPaths)
    requires
        call_ensures(LocalPaths::resolve, (dir,), r),
    ensures
        ({
            let top = if dir@.len() == 0 || dir@.last() == 47 {
                dir@
            } else {
                dir@ + seq![47u8]
            };
            &&& r.ca_crt@ == top + encode_utf8("ca.crt"@)
            &&& r.ca_key@ == top + encode_utf8("ca.key"@)
            &&& r.server_dir@ == top + encode_utf8("server"@)
            &&& r.server_crt@ == top + encode_utf8("server"@) + seq![47u8] + encode_utf8(
                "tls.crt"@,
            )
            &&& r.server_key@ == top + encode_utf8("server"@) + seq![47u8] + encode_utf8(
                "tls.key"@,
            )
            &&& r.client_dir@ == top + encode_utf8("client"@)
            &&& r.client_crt@ == top + encode_utf8("client"@) + seq![47u8] + encode_utf8(
                "tls.crt"@,
            )
            &&& r.client_key@ == top + encode_utf8("client"@) + seq![47u8] + encode_utf8(
                "tls.key"@,
            )
        }),
{
    lemma_names();
    let top = if dir@.len() == 0 || dir@.last() == 47 {
        dir@
    } else {
        dir@ + seq![47u8]
    };
    assert(r.ca_crt@ =~= top + encode_utf8("ca.crt"@));
    assert(r.ca_key@ =~= top + encode_utf8("ca.key"@));
    assert(r.server_dir@ =~= top + encode_utf8("server"@));
    assert(r.client_dir@ =~= top + encode_utf8("client"@));
    assert(r.server_dir@.last() == 114);
    assert(r.client_dir@.last() == 116);
    assert(r.server_crt@ =~= top + encode_utf8("server"@) + seq![47u8] + encode_utf8("tls.crt"@));
    assert(r.server_key@ =~= top + encode_utf8("server"@) + seq![47u8] + encode_utf8("tls.key"@));
    assert(r.client_crt@ =~= top + encode_utf8("client"@) + seq![47u8] + encode_utf8("tls.crt"@));
    assert(r.client_key@ =~= top + encode_utf8("client"@) + seq![47u8] + encode_utf8("tls.key"@));
}

/// The six files come in a fixed order: for the CA, the server and the client first the
/// certificate and then the key.
pub proof fn lemma_file_order(paths: LocalPaths, r: [&Vec<u8>; 6])
    requires
        call_ensures(LocalPaths::all_files, (&paths,), r),
    ensures
        r@[0]@ == paths.ca_crt@,
        r@[1]@ == paths.ca_key@,
        r@[2]@ == paths.server_crt@,
        r@[3]@ == paths.server_key@,
        r@[4]@ == paths.client_crt@,
        r@[5]@ == paths.client_key@,
{
}

/// Files are read in the same order.
pub proof fn lemma_bundle_read(files: &[String; 6], r: PkiBundle)
    requires
        call_ensures(read_local_bundle, (files,), r),
    ensures
        r.ca_cert_pem@ == files@[0]@,
        r.ca_key_pem@ == files@[1]@,
        r.server_cert_pem@ == files@[2]@,
        r.server_key_pem@ == files@[3]@,
        r.client_cert_pem@ == files@[4]@,
        r.client_key_pem@ == files@[5]@,
{
    let texts = files@.map_values(|s: String| s@);
    assert(files@.len() == 6);
    assert(contents(r)[0] == texts[0]);
    assert(contents(r)[1] == texts[1]);
    assert(contents(r)[2] == texts[2]);
    assert(contents(r)[3] == texts[3]);
    assert(contents(r)[4] == texts[4]);
    assert(contents(r)[5] == texts[5]);
}

/// Whatever the step, the bundle is copied for the CLI; its files are written exactly where
/// it is new.
pub proof fn lemma_work_after_step(step: LocalStep, bundle: PkiBundle, r: LocalWork)
    requires
        call_ensures(local_work, (step, bundle), r),
    ensures
        r.write_files <==> step is Generate,
        r.copy.gateway@ == "openshell"@,
        r.copy.bundle == bundle,
{
}

/// A copy that could not be stored gives a warning and nothing worse.
pub proof fn lemma_copy_is_no_failure(stored: bool, r: LocalOutcome)
    requires
        call_ensures(local_outcome, (stored,), r),
    ensures
        r is Done <==> stored,
        r matches LocalOutcome::DoneWithWarning(text) ==> text@
            == "failed to copy client mTLS materials for CLI auto-discovery"@,
{
}

/// Whether a file is there, holds `text`, and is hidden from others exactly if `hidden`.
pub open spec fn in_place(fs: FsView, path: Seq<u8>, text: Seq<char>, hidden: bool) -> bool {
    fs.files.contains_key(path) && fs.files[path] == (FileView {
        contents: text,
        owner_only: hidden,
    })
}

/// Running the steps puts the six parts of the bundle in place, the three keys hidden from
/// all but the owner and the certificates not, leaves nothing in the temporary directory,
/// and changes no other file.
pub proof fn lemma_installed(
    fs: FsView,
    dir: &[u8],
    bundle: &PkiBundle,
    paths: &LocalPaths,
    stale: bool,
    r: Vec<FileOp>,
)
    requires
        call_ensures(LocalPaths::resolve, (dir,), *paths),
        call_ensures(write_local_bundle, (dir, bundle, paths, stale), r),
        !stale ==> fs.nothing_within(temp_dir(dir@)),
    ensures
        ({
            let end = run(fs, views(r@));
            &&& in_place(end, paths.ca_crt@, bundle.ca_cert_pem@, false)
            &&& in_place(end, paths.ca_key@, bundle.ca_key_pem@, true)
            &&& in_place(end, paths.server_crt@, bundle.server_cert_pem@, false)
            &&& in_place(end, paths.server_key@, bundle.server_key_pem@, true)
            &&& in_place(end, paths.client_crt@, bundle.client_cert_pem@, false)
            &&& in_place(end, paths.client_key@, bundle.client_key_pem@, true)
            &&& end.nothing_within(temp_dir(dir@))
            &&& forall|p: Seq<u8>|
                !within(p, temp_dir(dir@)) && p != paths.ca_crt@ && p
                    != paths.ca_key@ && p != paths.server_crt@ && p != paths.server_key@ && p
                    != paths.client_crt@ && p != paths.client_key@
                    ==> #[trigger] same_file(fs, end, p)
        }),
{
    lemma_install_puts_bundle_in_place(fs, dir@, *bundle, stale);
    let f = layout(dir@).files();
    assert(f[0] == paths.ca_crt@);
    assert(f[1] == paths.ca_key@);
    assert(f[2] == paths.server_crt@);
    assert(f[3] == paths.server_key@);
    assert(f[4] == paths.client_crt@);
    assert(f[5] == paths.client_key@);
    let end = run(fs, views(r@));
    assert forall|p: Seq<u8>|
        !within(p, temp_dir(dir@)) && p != paths.ca_crt@ && p != paths.ca_key@ && p
            != paths.server_crt@ && p != paths.server_key@ && p != paths.client_crt@ && p
            != paths.client_key@ implies #[trigger] same_file(fs, end, p) by {
        assert(!is_target(dir@, p)) by {
            if is_target(dir@, p) {
                let i = choose|i: int| 0 <= i < 6 && p == #[trigger] layout(dir@).files()[i];
                assert(i == 0 || i == 1 || i == 2 || i == 3 || i == 4 || i == 5);
            }
        }
    }
}

/// The steps in order: what an earlier try left is removed, the temporary directory and the
/// two under it are made, the files are written there and each key is hidden at once, the
/// target directories are made, the files are moved, and the temporary directory goes.
pub proof fn lemma_steps_in_order(
    dir: &[u8],
    bundle: &PkiBundle,
    paths: &LocalPaths,
    stale: bool,
    r: Vec<FileOp>,
    temp: Vec<u8>,
    temp_bytes: &[u8],
    staged: LocalPaths,
)
    requires
        call_ensures(write_local_bundle, (dir, bundle, paths, stale), r),
        call_ensures(sibling_temp_dir, (dir,), temp),
        temp_bytes@ == temp@,
        call_ensures(LocalPaths::resolve, (temp_bytes,), staged),
    ensures
        ({
            let steps = seq![
                FileOpView::CreateDir { path: temp@ },
                FileOpView::CreateDir { path: staged.server_dir@ },
                FileOpView::CreateDir { path: staged.client_dir@ },
                FileOpView::Write {
                    path: staged.ca_crt@,
                    contents: bundle.ca_cert_pem@,
                },
                FileOpView::Write {
                    path: staged.ca_key@,
                    contents: bundle.ca_key_pem@,
                },
                FileOpView::Restrict { path: staged.ca_key@ },
                FileOpView::Write {
                    path: staged.server_crt@,
                    contents: bundle.server_cert_pem@,
                },
                FileOpView::Write {
                    path: staged.server_key@,
                    contents: bundle.server_key_pem@,
                },
                FileOpView::Restrict { path: staged.server_key@ },
                FileOpView::Write {
                    path: staged.client_crt@,
                    contents: bundle.client_cert_pem@,
                },
                FileOpView::Write {
                    path: staged.client_key@,
                    contents: bundle.client_key_pem@,
                },
                FileOpView::Restrict { path: staged.client_key@ },
                FileOpView::CreateDir { path: dir@ },
                FileOpView::CreateDir { path: paths.server_dir@ },
                FileOpView::CreateDir { path: paths.client_dir@ },
                FileOpView::Rename { from: staged.ca_crt@, to: paths.ca_crt@ },
                FileOpView::Rename { from: staged.ca_key@, to: paths.ca_key@ },
                FileOpView::Rename { from: staged.server_crt@, to: paths.server_crt@ },
                FileOpView::Rename { from: staged.server_key@, to: paths.server_key@ },
                FileOpView::Rename { from: staged.client_crt@, to: paths.client_crt@ },
                FileOpView::Rename { from: staged.client_key@, to: paths.client_key@ },
                FileOpView::Discard { path: temp@ },
            ];
            views(r@) == (if stale {
                seq![FileOpView::RemoveStale { path: temp@ }] + steps
            } else {
                steps
            })
        }),
{
    let steps = seq![
        FileOpView::CreateDir { path: temp@ },
        FileOpView::CreateDir { path: staged.server_dir@ },
        FileOpView::CreateDir { path: staged.client_dir@ },
        FileOpView::Write {
            path: staged.ca_crt@,
            contents: bundle.ca_cert_pem@,
        },
        FileOpView::Write {
            path: staged.ca_key@,
            contents: bundle.ca_key_pem@,
        },
        FileOpView::Restrict { path: staged.ca_key@ },
        FileOpView::Write {
            path: staged.server_crt@,
            contents: bundle.server_cert_pem@,
        },
        FileOpView::Write {
            path: staged.server_key@,
            contents: bundle.server_key_pem@,
        },
        FileOpView::Restrict { path: staged.server_key@ },
        FileOpView::Write {
            path: staged.client_crt@,
            contents: bundle.client_cert_pem@,
        },
        FileOpView::Write {
            path: staged.client_key@,
            contents: bundle.client_key_pem@,
        },
        FileOpView::Restrict { path: staged.client_key@ },
        FileOpView::CreateDir { path: dir@ },
        FileOpView::CreateDir { path: paths.server_dir@ },
        FileOpView::CreateDir { path: paths.client_dir@ },
        FileOpView::Rename { from: staged.ca_crt@, to: paths.ca_crt@ },
        FileOpView::Rename { from: staged.ca_key@, to: paths.ca_key@ },
        FileOpView::Rename { from: staged.server_crt@, to: paths.server_crt@ },
        FileOpView::Rename { from: staged.server_key@, to: paths.server_key@ },
        FileOpView::Rename { from: staged.client_crt@, to: paths.client_crt@ },
        FileOpView::Rename { from: staged.client_key@, to: paths.client_key@ },
        FileOpView::Discard { path: temp@ },
    ];
    reveal_with_fuel(writing, 7);
    let all = if stale {
        seq![FileOpView::RemoveStale { path: temp@ }] + steps
    } else {
        steps
    };
    assert(views(r@) =~= all);
}

/// A step stands for itself, with its paths and what is written.
pub proof fn lemma_steps(op: FileOp)
    ensures
        match op {
            FileOp::RemoveStale { path } => op@ == (FileOpView::RemoveStale { path: path@ }),
            FileOp::CreateDir { path } => op@ == (FileOpView::CreateDir { path: path@ }),
            FileOp::Write { path, contents } => op@ == (FileOpView::Write {
                path: path@,
                contents: contents@,
            }),
            FileOp::Restrict { path } => op@ == (FileOpView::Restrict { path: path@ }),
            FileOp::Rename { from, to } => op@ == (FileOpView::Rename { from: from@, to: to@ }),
            FileOp::Discard { path } => op@ == (FileOpView::Discard { path: path@ }),
        },
{
}

/// A Secret holds under a key what its last entry for that key holds.
pub proof fn lemma_secret_entries(secret: TlsSecret, key: &str, r: Option<&Vec<u8>>)
    requires
        call_ensures(TlsSecret::get, (&secret, key), r),
    ensures
        match r {
            Some(value) => exists|i: int| {
                &&& 0 <= i < secret.data@.len()
                &&& (#[trigger] secret.data@[i]).0@ == key@
                &&& secret.data@[i].1@ == value@
                &&& forall|j: int| i < j < secret.data@.len() ==> secret.data@[j].0@ != key@
            },
            None => forall|i: int|
                0 <= i < secret.data@.len() ==> (#[trigger] secret.data@[i]).0@ != key@,
        },
{
    lemma_data_map(secret.data@, key@);
}

proof fn lemma_data_map(data: Seq<(String, Vec<u8>)>, key: Seq<char>)
    ensures
        if data_map(data).contains_key(key) {
            exists|i: int| {
                &&& 0 <= i < data.len()
                &&& (#[trigger] data[i]).0@ == key
                &&& data[i].1@ == data_map(data)[key]
                &&& forall|j: int| i < j < data.len() ==> data[j].0@ != key
            }
        } else {
            forall|i: int| 0 <= i < data.len() ==> (#[trigger] data[i]).0@ != key
        },
    decreases data.len(),
{
    if data.len() > 0 {
        let n = data.len() - 1;
        let rest = data.drop_last();
        if data[n].0@ == key {
            assert(data[n].1@ == data_map(data)[key]);
        } else {
            lemma_data_map(rest, key);
            if data_map(rest).contains_key(key) {
                let i = choose|i: int| {
                    &&& 0 <= i < rest.len()
                    &&& (#[trigger] rest[i]).0@ == key
                    &&& rest[i].1@ == data_map(rest)[key]
                    &&& forall|j: int| i < j < rest.len() ==> rest[j].0@ != key
                };
                assert(data[i] == rest[i]);
                assert forall|j: int| i < j < data.len() implies data[j].0@ != key by {
                    if j < n {
                        assert(rest[j].0@ != key);
                    }
                }
            } else {
                assert forall|i: int| 0 <= i < data.len() implies (#[trigger] data[i]).0@
                    != key by {
                    if i < n {
                        assert(rest[i].0@ != key);
                    }
                }
            }
        }
    }
}

/// What is said of a failed step names the paths that it is about; that a directory cannot
/// be discarded is not a failure.
pub proof fn lemma_failed_steps(op: FileOp, r: OpFailure)
    requires
        call_ensures(FileOp::on_failure, (&op,), r),
    ensures
        r is Ignore <==> op is Discard,
        r is PassOn <==> op is CreateDir || op is Restrict,
        r matches OpFailure::Explain(text) ==> match op {
            FileOp::RemoveStale { path } => text@ == "failed to remove stale "@ + lossy_text(
                path@,
            ),
            FileOp::Write { path, .. } => text@ == "failed to write "@ + lossy_text(path@),
            FileOp::Rename { from, to } => text@ == "failed to move "@ + lossy_text(from@)
                + " -> "@ + lossy_text(to@),
            _ => false,
        },
{
}

/// Joining puts one slash between a path and a name, unless the path is empty or ends in
/// one; a name that starts with one stands for itself.
pub proof fn lemma_joins(base: &[u8], name: &[u8], r: Vec<u8>)
    requires
        call_ensures(join_path, (base, name), r),
    ensures
        name@.len() > 0 && name@[0] == 47 ==> r@ == name@,
        !(name@.len() > 0 && name@[0] == 47) ==> r@ == (if base@.len() == 0 || base@.last()
            == 47 {
            base@ + name@
        } else {
            base@ + seq![47u8] + name@
        }),
{
    assert(base@.push(47u8) + name@ =~= base@ + seq![47u8] + name@);
}

/// Whether a component is a name: it is not empty, holds no slash, and is neither one full
/// stop nor two.
pub open spec fn component_name(name: Seq<u8>) -> bool {
    &&& name.len() > 0
    &&& forall|i: int| 0 <= i < name.len() ==> #[trigger] name[i] != 47
    &&& !(name.len() == 1 && name[0] == 46)
    &&& !(name.len() == 2 && name[0] == 46 && name[1] == 46)
}

/// The sibling of a path has the suffix behind the name: under a directory, at the root,
/// and where there is just a name.
pub proof fn lemma_siblings(path: &[u8], suffix: &[u8], r: Vec<u8>, top: Seq<u8>, name: Seq<u8>)
    requires
        call_ensures(sibling_path, (path, suffix), r),
        path@ == top + name,
        component_name(name),
        top.len() == 0 || top == seq![47u8] || (top.len() >= 2 && top.last() == 47 && top[top.len()
            - 2] != 47 && top[top.len() - 2] != 46),
    ensures
        r@ == top + name + suffix@,
{
    lemma_sibling(path@, suffix@, top, name);
}

proof fn lemma_sibling(p: Seq<u8>, suffix: Seq<u8>, top: Seq<u8>, name: Seq<u8>)
    requires
        p == top + name,
        component_name(name),
        top.len() == 0 || top == seq![47u8] || (top.len() >= 2 && top.last() == 47 && top[top.len()
            - 2] != 47 && top[top.len() - 2] != 46),
    ensures
        sibling(p, suffix) == top + name + suffix,
{
    let n = top.len() as int;
    let floor = fixed_part(p);
    assert forall|i: int| n <= i < p.len() implies p[i] != 47 by {
        assert(p[i] == name[i - n]);
    }
    if n > 0 {
        assert(p[0] == top[0]);
        assert(p[n - 1] == top.last());
    } else {
        assert(p[0] == name[0]);
        if name.len() > 1 {
            assert(p[1] == name[1]);
        }
    }
    assert(floor <= n) by {
        if floor > n {
            assert(n == 0);
        }
    }
    lemma_last_start_is(p, p.len() as int, floor, n);
    assert(p.skip(n) =~= name);
    assert(trimmed_path(p) == p);
    assert(file_name(p) == Some(name));
    if n >= 2 {
        let q = p.take(n - 1);
        assert(q =~= top.take(n - 1));
        assert(p[1] == top[1]);
        assert(n > floor);
        assert(before_last(p) == n - 1);
        lemma_trimmed_already(q);
        assert(parent(p) == q);
        assert(sibling(p, suffix) =~= top + name + suffix);
    } else if n == 1 {
        assert(floor == 1);
        let q = p.take(1);
        assert(q =~= seq![47u8]);
        assert(fixed_part(q) == 1);
        assert(trimmed_path(q) == q);
        assert(parent(p) == q);
        assert(sibling(p, suffix) =~= top + name + suffix);
    } else {
        assert(floor == 0);
        let q = p.take(0);
        assert(q =~= Seq::<u8>::empty());
        assert(trimmed_path(q) == q);
        assert(parent(p) == q);
        assert((name + suffix)[0] == name[0]);
        assert(sibling(p, suffix) =~= top + name + suffix);
    }
}

/// A path that ends in neither a slash nor a full stop ends in a component that says
/// something.
proof fn lemma_trimmed_already(q: Seq<u8>)
    requires
        q.len() > 0,
        q.last() != 47,
        q.last() != 46,
    ensures
        trimmed_path(q) == q,
{
    let floor = fixed_part(q);
    lemma_component_start(q, q.len() as int, floor);
    let start = last_start(q);
    if q.len() > floor {
        let last = q.skip(start);
        if start == q.len() {
            assert(q[start - 1] == 47);
        }
        assert(last.last() == q.last());
    }
}

/// A slash at the end of a path does not matter to its sibling.
pub proof fn lemma_sibling_of_directory(
    path: &[u8],
    with_slash: &[u8],
    suffix: &[u8],
    r: Vec<u8>,
    s: Vec<u8>,
)
    requires
        call_ensures(sibling_path, (path, suffix), r),
        call_ensures(sibling_path, (with_slash, suffix), s),
        path@.len() > 0,
        path@.last() != 47,
        with_slash@ == path@.push(47),
    ensures
        r@ == s@,
{
    let p = path@;
    let q = with_slash@;
    let floor = fixed_part(q);
    assert(q[0] == p[0]);
    lemma_last_start_is(q, q.len() as int, floor, q.len() as int);
    assert(q.skip(q.len() as int).len() == 0);
    assert(before_last(q) == p.len());
    assert(q.take(p.len() as int) =~= p);
    assert(trimmed_path(q) == trimmed_path(p));
    assert(p.push(47) + suffix@ =~= q + suffix@);
}

/// Files are first written next to the directory that they are for, under its name with
/// `.certgen.tmp` behind it.
pub proof fn lemma_temporary_directory(dir: &[u8], r: Vec<u8>, top: Seq<u8>, name: Seq<u8>)
    requires
        call_ensures(sibling_temp_dir, (dir,), r),
        dir@ == top + name,
        component_name(name),
        top.len() == 0 || top == seq![47u8] || (top.len() >= 2 && top.last() == 47 && top[top.len()
            - 2] != 47 && top[top.len() - 2] != 46),
    ensures
        r@ == top + name + encode_utf8(".certgen.tmp"@),
{
    lemma_sibling(dir@, encode_utf8(".certgen.tmp"@), top, name);
}

/// The message for each reason why no certificates are made; those about a partial state
/// say how to recover.
pub proof fn lemma_certgen_messages(error: CertgenError, r: String)
    requires
        call_ensures(CertgenError::message, (&error,), r),
    ensures
        match error {
            CertgenError::NamespaceRequired => r@
                == "--namespace is required (or set POD_NAMESPACE)"@,
            CertgenError::ServerSecretNameRequired => r@ == "--server-secret-name is required"@,
            CertgenError::ClientSecretNameRequired => r@ == "--client-secret-name is required"@,
            CertgenError::PartialSecrets { namespace, server_name, client_name } => r@
                == "partial PKI state in namespace "@ + namespace@ + ": exactly one of "@
                + server_name@ + " / "@ + client_name@
                + " exists. Recover with: kubectl delete secret -n "@ + namespace@ + " "@
                + server_name@ + " "@ + client_name@,
            CertgenError::PartialFiles { dir } => r@ == "partial PKI state in "@ + lossy_text(
                dir@,
            ) + ": some files exist but not all. Recover with: rm -rf "@ + lossy_text(dir@)
                + " (the gateway will regenerate on next start)"@,
        },
{
}

/// A file that cannot be read is named.
pub proof fn lemma_unreadable_file(path: &[u8], r: String)
    requires
        call_ensures(read_failure, (path,), r),
    ensures
        r@ == "failed to read "@ + lossy_text(path@),
{
}

} // verus!

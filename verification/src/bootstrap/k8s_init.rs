//! Brings the gateway up on a cluster that is there already.
//!
//! The run is written as steps: [`ClusterInit::next`] takes what came of the last
//! action and says which action comes next. Talking to the cluster, running
//! programs and writing files is left to the caller.
use vstd::prelude::*;
use vstd::string::*;
use vstd::utf8::*;
use crate::bootstrap::constants;
use crate::environment;
use crate::process::{Command, CommandView};
use crate::string_map::StringMap;
use crate::text;

verus! {

broadcast use vstd::string::group_string_axioms;

// ---------------------------------------------------------------------------
// What is asked for, and what is found
// ---------------------------------------------------------------------------

/// What is asked for.
pub struct ClusterRequest {
    pub gateway_name: String,
    pub namespace: String,
    /// The registry to which bundled images are pushed.
    pub registry: String,
    pub registry_username: Option<String>,
    pub registry_token: Option<String>,
    pub registry_authfile: Option<String>,
}

pub struct ClusterRequestView {
    pub gateway_name: Seq<char>,
    pub namespace: Seq<char>,
    pub registry: Seq<char>,
    pub registry_username: Option<Seq<char>>,
    pub registry_token: Option<Seq<char>>,
    pub registry_authfile: Option<Seq<char>>,
}

impl View for ClusterRequest {
    type V = ClusterRequestView;

    open spec fn view(&self) -> ClusterRequestView {
        ClusterRequestView {
            gateway_name: self.gateway_name@,
            namespace: self.namespace@,
            registry: self.registry@,
            registry_username: text::optional(self.registry_username),
            registry_token: text::optional(self.registry_token),
            registry_authfile: text::optional(self.registry_authfile),
        }
    }
}

/// The certificates and keys of a gateway.
pub struct PkiBundle {
    pub ca_cert_pem: String,
    pub server_cert_pem: String,
    pub server_key_pem: String,
    pub client_cert_pem: String,
    pub client_key_pem: String,
}

pub struct PkiBundleView {
    pub ca_cert_pem: Seq<char>,
    pub server_cert_pem: Seq<char>,
    pub server_key_pem: Seq<char>,
    pub client_cert_pem: Seq<char>,
    pub client_key_pem: Seq<char>,
}

impl View for PkiBundle {
    type V = PkiBundleView;

    open spec fn view(&self) -> PkiBundleView {
        PkiBundleView {
            ca_cert_pem: self.ca_cert_pem@,
            server_cert_pem: self.server_cert_pem@,
            server_key_pem: self.server_key_pem@,
            client_cert_pem: self.client_cert_pem@,
            client_key_pem: self.client_key_pem@,
        }
    }
}

/// A bundle with nothing in it.
pub open spec fn no_bundle() -> PkiBundleView {
    PkiBundleView {
        ca_cert_pem: Seq::empty(),
        server_cert_pem: Seq::empty(),
        server_key_pem: Seq::empty(),
        client_cert_pem: Seq::empty(),
        client_key_pem: Seq::empty(),
    }
}

/// What the caller's environment says.
pub struct Settings {
    /// `OPENSHELL_HELM_BIN`.
    pub helm_bin: Option<String>,
    /// `OPENSHELL_HELM_CHART_PATH`.
    pub chart_path: Option<String>,
    /// `OPENSHELL_IMAGES_DIR`.
    pub images_dir: Option<String>,
    /// Where temporary files go.
    pub temp_dir: String,
}

pub struct SettingsView {
    pub helm_bin: Option<Seq<char>>,
    pub chart_path: Option<Seq<char>>,
    pub images_dir: Option<Seq<char>>,
    pub temp_dir: Seq<char>,
}

impl View for Settings {
    type V = SettingsView;

    open spec fn view(&self) -> SettingsView {
        SettingsView {
            helm_bin: text::optional(self.helm_bin),
            chart_path: text::optional(self.chart_path),
            images_dir: text::optional(self.images_dir),
            temp_dir: self.temp_dir@,
        }
    }
}

/// Settings of an environment that says nothing.
pub open spec fn no_settings() -> SettingsView {
    SettingsView { helm_bin: None, chart_path: None, images_dir: None, temp_dir: Seq::empty() }
}

// ---------------------------------------------------------------------------
// Paths
// ---------------------------------------------------------------------------

/// A path below another. An absolute path stands for itself.
pub open spec fn path_join(base: Seq<char>, part: Seq<char>) -> Seq<char> {
    if part.len() > 0 && part[0] == '/' {
        part
    } else if base.len() == 0 || base.last() == '/' {
        base + part
    } else {
        base.push('/') + part
    }
}

/// Puts a path below another.
pub fn join_path(base: &str, part: &str) -> (r: String)
    ensures
        r@ == path_join(base@, part@),
{
    let part_len = part.unicode_len();
    let base_len = base.unicode_len();
    if part_len > 0 && part.get_char(0) == '/' {
        part.to_owned()
    } else if base_len == 0 || base.get_char(base_len - 1) == '/' {
        base.to_owned().concat(part)
    } else {
        let mut r = base.to_owned();
        r.push('/');
        r.append(part);
        r
    }
}

// ---------------------------------------------------------------------------
// Secrets
// ---------------------------------------------------------------------------

/// A secret of the cluster.
pub struct SecretManifest {
    pub name: String,
    pub namespace: String,
    pub secret_type: String,
    pub data: StringMap<Vec<u8>>,
}

pub struct SecretManifestView {
    pub name: Seq<char>,
    pub namespace: Seq<char>,
    pub secret_type: Seq<char>,
    pub data: Map<Seq<char>, Seq<u8>>,
}

impl View for SecretManifest {
    type V = SecretManifestView;

    open spec fn view(&self) -> SecretManifestView {
        SecretManifestView {
            name: self.name@,
            namespace: self.namespace@,
            secret_type: self.secret_type@,
            data: self.data@.map_values(|v: Vec<u8>| v@),
        }
    }
}

/// The secret with what clients need to connect.
pub open spec fn client_tls_secret(namespace: Seq<char>, bundle: PkiBundleView) -> SecretManifestView {
    SecretManifestView {
        name: constants::CLIENT_TLS_SECRET_NAME@,
        namespace,
        secret_type: "Opaque"@,
        data: map![
            "tls.crt"@ => encode_utf8(bundle.client_cert_pem),
            "tls.key"@ => encode_utf8(bundle.client_key_pem),
            "ca.crt"@ => encode_utf8(bundle.ca_cert_pem)
        ],
    }
}

/// The secret with the certificate and the key of the server.
pub open spec fn server_tls_secret(namespace: Seq<char>, bundle: PkiBundleView) -> SecretManifestView {
    SecretManifestView {
        name: constants::SERVER_TLS_SECRET_NAME@,
        namespace,
        secret_type: "kubernetes.io/tls"@,
        data: map![
            "tls.crt"@ => encode_utf8(bundle.server_cert_pem),
            "tls.key"@ => encode_utf8(bundle.server_key_pem)
        ],
    }
}

/// The secret with the certificate that verifies clients.
pub open spec fn client_ca_secret(namespace: Seq<char>, bundle: PkiBundleView) -> SecretManifestView {
    SecretManifestView {
        name: constants::SERVER_CLIENT_CA_SECRET_NAME@,
        namespace,
        secret_type: "Opaque"@,
        data: map!["ca.crt"@ => encode_utf8(bundle.ca_cert_pem)],
    }
}

/// A lower-case hexadecimal digit.
pub open spec fn lower_hex(n: int) -> char {
    if n < 10 {
        ('0' as u32 + n) as char
    } else {
        ('a' as u32 + (n - 10)) as char
    }
}

/// Bytes in hexadecimal, two digits each.
pub open spec fn hex(bytes: Seq<u8>) -> Seq<char>
    decreases bytes.len(),
{
    if bytes.len() == 0 {
        Seq::empty()
    } else {
        hex(bytes.drop_last()).push(lower_hex(bytes.last() as int / 16)).push(
            lower_hex(bytes.last() as int % 16),
        )
    }
}

/// The secret of the SSH handshake, made from random bytes.
pub open spec fn handshake_secret(namespace: Seq<char>, random: Seq<u8>) -> SecretManifestView {
    SecretManifestView {
        name: constants::SSH_HANDSHAKE_SECRET_NAME@,
        namespace,
        secret_type: "Opaque"@,
        data: map!["secret"@ => encode_utf8(hex(random))],
    }
}

fn hex_digit(n: u8) -> (c: char)
    requires
        n < 16,
    ensures
        c == lower_hex(n as int),
{
    if n < 10 {
        (48 + n) as char
    } else {
        (87 + n) as char
    }
}

/// Writes bytes in hexadecimal.
pub fn hex_text(bytes: &[u8]) -> (r: String)
    ensures
        r@ == hex(bytes@),
{
    let mut r = String::new();
    let mut i: usize = 0;
    proof {
        assert(bytes@.take(0) =~= Seq::empty());
    }
    while i < bytes.len()
        invariant
            i <= bytes.len(),
            r@ == hex(bytes@.take(i as int)),
        decreases bytes.len() - i,
    {
        proof {
            assert(bytes@.take(i + 1).drop_last() =~= bytes@.take(i as int));
        }
        r.push(hex_digit(bytes[i] / 16));
        r.push(hex_digit(bytes[i] % 16));
        i = i + 1;
    }
    proof {
        assert(bytes@.take(bytes@.len() as int) =~= bytes@);
    }
    r
}

/// What the entries of a secret hold.
spec fn entries(data: StringMap<Vec<u8>>) -> Map<Seq<char>, Seq<u8>> {
    data@.map_values(|v: Vec<u8>| v@)
}

fn no_entries() -> (r: StringMap<Vec<u8>>)
    ensures
        entries(r) == Map::<Seq<char>, Seq<u8>>::empty(),
{
    let r: StringMap<Vec<u8>> = StringMap::new();
    proof {
        assert(entries(r) =~= Map::empty());
    }
    r
}

fn add_entry(data: &mut StringMap<Vec<u8>>, key: &str, value: &str)
    ensures
        entries(*final(data)) == entries(*old(data)).insert(key@, encode_utf8(value@)),
{
    let bytes = vstd::slice::slice_to_vec(value.as_bytes());
    let ghost contents = bytes@;
    data.insert(key.to_owned(), bytes);
    proof {
        assert(entries(*data) =~= entries(*old(data)).insert(key@, contents));
    }
}

/// Makes the secret with what clients need to connect.
pub fn ensure_client_tls_secret(namespace: &str, bundle: &PkiBundle) -> (r: SecretManifest)
    ensures
        r@ == client_tls_secret(namespace@, bundle@),
{
    let mut data = no_entries();
    add_entry(&mut data, "tls.crt", bundle.client_cert_pem.as_str());
    add_entry(&mut data, "tls.key", bundle.client_key_pem.as_str());
    add_entry(&mut data, "ca.crt", bundle.ca_cert_pem.as_str());
    SecretManifest {
        name: constants::CLIENT_TLS_SECRET_NAME.to_owned(),
        namespace: namespace.to_owned(),
        secret_type: "Opaque".to_owned(),
        data,
    }
}

/// Makes the secret with the certificate and the key of the server.
pub fn ensure_server_tls_secret(namespace: &str, bundle: &PkiBundle) -> (r: SecretManifest)
    ensures
        r@ == server_tls_secret(namespace@, bundle@),
{
    let mut data = no_entries();
    add_entry(&mut data, "tls.crt", bundle.server_cert_pem.as_str());
    add_entry(&mut data, "tls.key", bundle.server_key_pem.as_str());
    SecretManifest {
        name: constants::SERVER_TLS_SECRET_NAME.to_owned(),
        namespace: namespace.to_owned(),
        secret_type: "kubernetes.io/tls".to_owned(),
        data,
    }
}

/// Makes the secret with the certificate that verifies clients.
pub fn ensure_server_client_ca_secret(namespace: &str, bundle: &PkiBundle) -> (r: SecretManifest)
    ensures
        r@ == client_ca_secret(namespace@, bundle@),
{
    let mut data = no_entries();
    add_entry(&mut data, "ca.crt", bundle.ca_cert_pem.as_str());
    SecretManifest {
        name: constants::SERVER_CLIENT_CA_SECRET_NAME.to_owned(),
        namespace: namespace.to_owned(),
        secret_type: "Opaque".to_owned(),
        data,
    }
}

/// Makes the secret of the SSH handshake from random bytes.
pub fn ensure_ssh_handshake_secret(namespace: &str, random: &[u8]) -> (r: SecretManifest)
    ensures
        r@ == handshake_secret(namespace@, random@),
{
    let mut data = no_entries();
    add_entry(&mut data, "secret", hex_text(random).as_str());
    SecretManifest {
        name: constants::SSH_HANDSHAKE_SECRET_NAME.to_owned(),
        namespace: namespace.to_owned(),
        secret_type: "Opaque".to_owned(),
        data,
    }
}

/// Every byte gives two digits.
pub proof fn hex_has_two_digits_per_byte(bytes: Seq<u8>)
    ensures
        hex(bytes).len() == 2 * bytes.len(),
    decreases bytes.len(),
{
    if bytes.len() > 0 {
        hex_has_two_digits_per_byte(bytes.drop_last());
    }
}

/// Different bytes give different texts, so that nothing of what is random is
/// lost.
pub proof fn hex_is_injective(a: Seq<u8>, b: Seq<u8>)
    requires
        hex(a) == hex(b),
    ensures
        a == b,
    decreases a.len(),
{
    hex_has_two_digits_per_byte(a);
    hex_has_two_digits_per_byte(b);
    if a.len() == 0 {
        assert(a =~= b);
    } else {
        let n = hex(a).len();
        let x = a.last() as int;
        let y = b.last() as int;
        assert(hex(a)[n - 1] == lower_hex(x % 16));
        assert(hex(b)[n - 1] == lower_hex(y % 16));
        assert(hex(a)[n - 2] == lower_hex(x / 16));
        assert(hex(b)[n - 2] == lower_hex(y / 16));
        assert(x == y);
        assert(hex(a.drop_last()) =~= hex(a).take(n - 2));
        assert(hex(b.drop_last()) =~= hex(b).take(n - 2));
        hex_is_injective(a.drop_last(), b.drop_last());
        assert(a =~= a.drop_last().push(a.last()));
        assert(b =~= b.drop_last().push(b.last()));
    }
}

// ---------------------------------------------------------------------------
// Bundled images
// ---------------------------------------------------------------------------

/// Which images came along with the program.
#[derive(Clone, Copy, Debug, PartialEq, Eq, Structural)]
pub enum Bundled {
    /// None: the images are pulled from the registry.
    Nothing,
    /// One image for both the gateway and the supervisor.
    CoreRock,
    /// An image for the gateway and one for the supervisor.
    Archives,
}

/// The archive with one image for both.
pub open spec fn core_rock(images_dir: Seq<char>) -> Seq<char> {
    path_join(images_dir, "openshell-core.rock"@)
}

/// The archive with the image of the gateway.
pub open spec fn gateway_tar(images_dir: Seq<char>) -> Seq<char> {
    path_join(images_dir, "gateway.tar"@)
}

/// The archive with the image of the supervisor.
pub open spec fn supervisor_tar(images_dir: Seq<char>) -> Seq<char> {
    path_join(images_dir, "supervisor.tar"@)
}

/// Which images came along, given which archives are there. The one image for
/// both counts first, and the two others only together.
pub open spec fn bundled_images(core: bool, gateway: bool, supervisor: bool) -> Bundled {
    if core {
        Bundled::CoreRock
    } else if gateway && supervisor {
        Bundled::Archives
    } else {
        Bundled::Nothing
    }
}

/// Decides which images came along.
pub fn detect_bundle(core: bool, gateway: bool, supervisor: bool) -> (r: Bundled)
    ensures
        r == bundled_images(core, gateway, supervisor),
{
    if core {
        Bundled::CoreRock
    } else if gateway && supervisor {
        Bundled::Archives
    } else {
        Bundled::Nothing
    }
}

/// The command that pushes an archive to the registry.
pub open spec fn copy_call(
    source: Seq<char>,
    target: Seq<char>,
    temp_dir: Seq<char>,
    authfile: Option<Seq<char>>,
) -> CommandView {
    CommandView {
        program: "skopeo"@,
        args: seq!["--insecure-policy"@, "copy"@, "--dest-tls-verify=false"@] + (match authfile {
            Some(path) => seq!["--authfile"@, path],
            None => Seq::empty(),
        }) + seq!["--tmpdir"@, temp_dir, "oci-archive:"@ + source, "docker://"@ + target],
        env: seq![("CONTAINERS_REGISTRIES_CONF"@, "/dev/null"@)],
        stdin: None,
    }
}

fn registries_env() -> (r: Vec<(String, String)>)
    ensures
        text::pair_views(r@) == seq![("CONTAINERS_REGISTRIES_CONF"@, "/dev/null"@)],
{
    let mut env: Vec<(String, String)> = Vec::new();
    environment::push_var(&mut env, "CONTAINERS_REGISTRIES_CONF", "/dev/null");
    proof {
        assert(text::pair_views(env@) =~= seq![("CONTAINERS_REGISTRIES_CONF"@, "/dev/null"@)]);
    }
    env
}

/// Builds the command that pushes an archive to the registry.
pub fn skopeo_copy(source: &str, target: &str, temp_dir: &str, authfile: &Option<String>) -> (r:
    Command)
    ensures
        r@ == copy_call(source@, target@, temp_dir@, text::optional(*authfile)),
{
    let mut args: Vec<String> = Vec::new();
    text::push_word(&mut args, "--insecure-policy");
    text::push_word(&mut args, "copy");
    text::push_word(&mut args, "--dest-tls-verify=false");
    if let Some(path) = authfile {
        text::push_word(&mut args, "--authfile");
        text::push_word(&mut args, path.as_str());
    }
    text::push_word(&mut args, "--tmpdir");
    text::push_word(&mut args, temp_dir);
    text::push_word(&mut args, "oci-archive:".to_owned().concat(source).as_str());
    text::push_word(&mut args, "docker://".to_owned().concat(target).as_str());
    proof {
        assert(text::views(args@) =~= copy_call(
            source@,
            target@,
            temp_dir@,
            text::optional(*authfile),
        ).args);
    }
    Command { program: "skopeo".to_owned(), args, env: registries_env(), stdin: None }
}

/// How the registry is told who pushes.
pub enum Credentials {
    /// By this file.
    File(String),
    /// By logging in.
    Login { username: String, token: String },
    /// Not at all.
    Anonymous,
}

pub enum CredentialsView {
    File(Seq<char>),
    Login { username: Seq<char>, token: Seq<char> },
    Anonymous,
}

impl View for Credentials {
    type V = CredentialsView;

    open spec fn view(&self) -> CredentialsView {
        match self {
            Credentials::File(path) => CredentialsView::File(path@),
            Credentials::Login { username, token } => CredentialsView::Login {
                username: username@,
                token: token@,
            },
            Credentials::Anonymous => CredentialsView::Anonymous,
        }
    }
}

/// How the registry is told who pushes. A file counts more than a token, a token
/// without a user name is the token's own, and a user name without a token is
/// refused.
pub open spec fn credentials_of(request: ClusterRequestView) -> Result<CredentialsView, Seq<char>> {
    match request.registry_authfile {
        Some(path) => Ok(CredentialsView::File(path)),
        None => match (request.registry_username, request.registry_token) {
            (Some(username), Some(token)) => Ok(CredentialsView::Login { username, token }),
            (None, Some(token)) => Ok(CredentialsView::Login { username: "__token__"@, token }),
            (Some(_), None) => Err(
                "A registry token/password must be provided when a username is specified."@,
            ),
            (None, None) => Ok(CredentialsView::Anonymous),
        },
    }
}

/// Resolves how the registry is told who pushes.
pub fn resolve_credentials(request: &ClusterRequest) -> (r: Result<Credentials, String>)
    ensures
        (match r {
            Ok(c) => Ok(c@),
            Err(m) => Err(m@),
        }) == credentials_of(request@),
{
    if let Some(path) = &request.registry_authfile {
        return Ok(Credentials::File(path.clone()));
    }
    match (&request.registry_username, &request.registry_token) {
        (Some(username), Some(token)) => Ok(
            Credentials::Login { username: username.clone(), token: token.clone() },
        ),
        (None, Some(token)) => Ok(
            Credentials::Login { username: "__token__".to_owned(), token: token.clone() },
        ),
        (Some(_), None) => Err(
            "A registry token/password must be provided when a username is specified.".to_owned(),
        ),
        (None, None) => Ok(Credentials::Anonymous),
    }
}

/// A user name without a token is refused, unless there is a file; nothing else
/// is.
pub proof fn username_needs_token(request: ClusterRequestView)
    ensures
        (credentials_of(request) is Err) == (request.registry_authfile is None
            && request.registry_username is Some && request.registry_token is None),
{
}

/// The command that logs in to the registry. The token goes to its standard
/// input, so that it shows in no list of processes.
pub open spec fn login_call(
    authfile: Seq<char>,
    username: Seq<char>,
    token: Seq<char>,
    registry: Seq<char>,
) -> CommandView {
    CommandView {
        program: "skopeo"@,
        args: seq![
            "login"@,
            "--authfile"@,
            authfile,
            "--username"@,
            username,
            "--password-stdin"@,
            registry,
        ],
        env: seq![("CONTAINERS_REGISTRIES_CONF"@, "/dev/null"@)],
        stdin: Some(token),
    }
}

/// Builds the command that logs in to the registry.
pub fn skopeo_login(authfile: &str, username: &str, token: &str, registry: &str) -> (r: Command)
    ensures
        r@ == login_call(authfile@, username@, token@, registry@),
{
    let mut args: Vec<String> = Vec::new();
    text::push_word(&mut args, "login");
    text::push_word(&mut args, "--authfile");
    text::push_word(&mut args, authfile);
    text::push_word(&mut args, "--username");
    text::push_word(&mut args, username);
    text::push_word(&mut args, "--password-stdin");
    text::push_word(&mut args, registry);
    proof {
        assert(text::views(args@) =~= login_call(authfile@, username@, token@, registry@).args);
    }
    Command {
        program: "skopeo".to_owned(),
        args,
        env: registries_env(),
        stdin: Some(token.to_owned()),
    }
}

/// The arguments of the login do not depend on the token.
pub proof fn token_is_no_argument(
    authfile: Seq<char>,
    username: Seq<char>,
    token: Seq<char>,
    other: Seq<char>,
    registry: Seq<char>,
)
    ensures
        login_call(authfile, username, token, registry).args == login_call(
            authfile,
            username,
            other,
            registry,
        ).args,
{
}

// ---------------------------------------------------------------------------
// Chart
// ---------------------------------------------------------------------------

/// The arguments that point the chart to images in the registry.
pub open spec fn image_args(bundled: Bundled, registry: Seq<char>) -> Seq<Seq<char>> {
    match bundled {
        Bundled::Nothing => Seq::empty(),
        Bundled::CoreRock => seq![
            "--set"@,
            "image.repository="@ + registry + "/openshell-core"@,
            "--set"@,
            "image.tag=local"@,
            "--set"@,
            "image.pullPolicy=Always"@,
            "--set"@,
            "supervisorImage="@ + registry + "/openshell-core:local"@,
            "--set"@,
            "supervisorImagePullPolicy=Always"@,
        ],
        Bundled::Archives => seq![
            "--set"@,
            "image.repository="@ + registry + "/openshell-gateway"@,
            "--set"@,
            "image.tag=dev"@,
            "--set"@,
            "image.pullPolicy=Always"@,
            "--set"@,
            "supervisorImage="@ + registry + "/openshell-supervisor:dev"@,
            "--set"@,
            "supervisorImagePullPolicy=Always"@,
        ],
    }
}

/// The command that installs the gateway, or upgrades it.
pub open spec fn helm_call(
    settings: SettingsView,
    namespace: Seq<char>,
    bundled: Bundled,
    registry: Seq<char>,
) -> CommandView {
    CommandView {
        program: match settings.helm_bin {
            Some(bin) => bin,
            None => "helm"@,
        },
        args: seq![
            "upgrade"@,
            "--install"@,
            "gateway"@,
            match settings.chart_path {
                Some(path) => path,
                None => "deploy/helm/openshell"@,
            },
            "--namespace"@,
            namespace,
            "--wait"@,
            "--timeout"@,
            "2m"@,
        ] + image_args(bundled, registry),
        env: Seq::empty(),
        stdin: None,
    }
}

fn text_or(s: &Option<String>, otherwise: &str) -> (r: String)
    ensures
        r@ == (match text::optional(*s) {
            Some(t) => t,
            None => otherwise@,
        }),
{
    match s {
        Some(t) => t.clone(),
        None => otherwise.to_owned(),
    }
}

fn push_image_args(args: &mut Vec<String>, bundled: Bundled, registry: &str)
    ensures
        text::views(final(args)@) == text::views(old(args)@) + image_args(bundled, registry@),
{
    let ghost before = text::views(args@);
    let (repository, tag, supervisor) = match bundled {
        Bundled::Nothing => {
            proof {
                assert(text::views(args@) =~= before + image_args(bundled, registry@));
            }
            return;
        },
        Bundled::CoreRock => (
            "image.repository=".to_owned().concat(registry).concat("/openshell-core"),
            "image.tag=local",
            "supervisorImage=".to_owned().concat(registry).concat("/openshell-core:local"),
        ),
        Bundled::Archives => (
            "image.repository=".to_owned().concat(registry).concat("/openshell-gateway"),
            "image.tag=dev",
            "supervisorImage=".to_owned().concat(registry).concat("/openshell-supervisor:dev"),
        ),
    };
    text::push_word(args, "--set");
    text::push_word(args, repository.as_str());
    text::push_word(args, "--set");
    text::push_word(args, tag);
    text::push_word(args, "--set");
    text::push_word(args, "image.pullPolicy=Always");
    text::push_word(args, "--set");
    text::push_word(args, supervisor.as_str());
    text::push_word(args, "--set");
    text::push_word(args, "supervisorImagePullPolicy=Always");
    proof {
        assert(text::views(args@) =~= before + image_args(bundled, registry@));
    }
}

/// Builds the command that installs the gateway, or upgrades it.
pub fn helm_upgrade(settings: &Settings, namespace: &str, bundled: Bundled, registry: &str) -> (r:
    Command)
    ensures
        r@ == helm_call(settings@, namespace@, bundled, registry@),
{
    let mut args: Vec<String> = Vec::new();
    let chart = text_or(&settings.chart_path, "deploy/helm/openshell");
    text::push_word(&mut args, "upgrade");
    text::push_word(&mut args, "--install");
    text::push_word(&mut args, "gateway");
    text::push_word(&mut args, chart.as_str());
    text::push_word(&mut args, "--namespace");
    text::push_word(&mut args, namespace);
    text::push_word(&mut args, "--wait");
    text::push_word(&mut args, "--timeout");
    text::push_word(&mut args, "2m");
    push_image_args(&mut args, bundled, registry);
    let env: Vec<(String, String)> = Vec::new();
    proof {
        assert(text::views(args@) =~= helm_call(settings@, namespace@, bundled, registry@).args);
        assert(text::pair_views(env@) =~= Seq::empty());
    }
    Command { program: text_or(&settings.helm_bin, "helm"), args, env, stdin: None }
}

/// Without bundled images the chart keeps the images that it names, whatever the
/// registry.
pub proof fn chart_images_are_kept(
    settings: SettingsView,
    namespace: Seq<char>,
    registry: Seq<char>,
    other: Seq<char>,
)
    ensures
        helm_call(settings, namespace, Bundled::Nothing, registry) == helm_call(
            settings,
            namespace,
            Bundled::Nothing,
            other,
        ),
        helm_call(settings, namespace, Bundled::Nothing, registry).args.len() == 9,
{
}

// ---------------------------------------------------------------------------
// What is kept on this host
// ---------------------------------------------------------------------------

/// What the command line knows of a gateway.
pub struct GatewayMetadata {
    pub name: String,
    pub gateway_endpoint: String,
    pub is_remote: bool,
    pub gateway_port: u16,
    pub remote_host: Option<String>,
    pub resolved_host: Option<String>,
    pub auth_mode: Option<String>,
    pub edge_team_domain: Option<String>,
    pub edge_auth_url: Option<String>,
    pub oidc_issuer: Option<String>,
    pub oidc_client_id: Option<String>,
    pub oidc_audience: Option<String>,
    pub oidc_scopes: Option<String>,
    pub vm_driver_state_dir: Option<String>,
}

pub struct GatewayMetadataView {
    pub name: Seq<char>,
    pub gateway_endpoint: Seq<char>,
    pub is_remote: bool,
    pub gateway_port: u16,
    pub remote_host: Option<Seq<char>>,
    pub resolved_host: Option<Seq<char>>,
    pub auth_mode: Option<Seq<char>>,
    pub edge_team_domain: Option<Seq<char>>,
    pub edge_auth_url: Option<Seq<char>>,
    pub oidc_issuer: Option<Seq<char>>,
    pub oidc_client_id: Option<Seq<char>>,
    pub oidc_audience: Option<Seq<char>>,
    pub oidc_scopes: Option<Seq<char>>,
    pub vm_driver_state_dir: Option<Seq<char>>,
}

impl View for GatewayMetadata {
    type V = GatewayMetadataView;

    open spec fn view(&self) -> GatewayMetadataView {
        GatewayMetadataView {
            name: self.name@,
            gateway_endpoint: self.gateway_endpoint@,
            is_remote: self.is_remote,
            gateway_port: self.gateway_port,
            remote_host: text::optional(self.remote_host),
            resolved_host: text::optional(self.resolved_host),
            auth_mode: text::optional(self.auth_mode),
            edge_team_domain: text::optional(self.edge_team_domain),
            edge_auth_url: text::optional(self.edge_auth_url),
            oidc_issuer: text::optional(self.oidc_issuer),
            oidc_client_id: text::optional(self.oidc_client_id),
            oidc_audience: text::optional(self.oidc_audience),
            oidc_scopes: text::optional(self.oidc_scopes),
            vm_driver_state_dir: text::optional(self.vm_driver_state_dir),
        }
    }
}

/// What is noted of the gateway of a cluster: it is reached on this host, and
/// clients show certificates.
pub open spec fn cluster_metadata(gateway_name: Seq<char>) -> GatewayMetadataView {
    GatewayMetadataView {
        name: gateway_name,
        gateway_endpoint: "https://127.0.0.1:"@ + text::decimal(
            constants::GATEWAY_NODE_PORT as nat,
        ),
        is_remote: false,
        gateway_port: constants::GATEWAY_NODE_PORT,
        remote_host: None,
        resolved_host: None,
        auth_mode: Some("mtls"@),
        edge_team_domain: None,
        edge_auth_url: None,
        oidc_issuer: None,
        oidc_client_id: None,
        oidc_audience: None,
        oidc_scopes: None,
        vm_driver_state_dir: None,
    }
}

/// Describes the gateway of a cluster.
pub fn gateway_metadata(gateway_name: &str) -> (r: GatewayMetadata)
    ensures
        r@ == cluster_metadata(gateway_name@),
{
    GatewayMetadata {
        name: gateway_name.to_owned(),
        gateway_endpoint: "https://127.0.0.1:".to_owned().concat(
            text::u64_text(constants::GATEWAY_NODE_PORT as u64).as_str(),
        ),
        is_remote: false,
        gateway_port: constants::GATEWAY_NODE_PORT,
        remote_host: None,
        resolved_host: None,
        auth_mode: Some("mtls".to_owned()),
        edge_team_domain: None,
        edge_auth_url: None,
        oidc_issuer: None,
        oidc_client_id: None,
        oidc_audience: None,
        oidc_scopes: None,
        vm_driver_state_dir: None,
    }
}

/// The directory with what this host needs to connect to a gateway.
pub open spec fn mtls_dir(home: Seq<char>, gateway_name: Seq<char>) -> Seq<char> {
    path_join(
        path_join(
            path_join(path_join(path_join(home, ".config"@), "openshell"@), "gateways"@),
            gateway_name,
        ),
        "mtls"@,
    )
}

/// Makes the path of that directory.
pub fn mtls_path(home: &str, gateway_name: &str) -> (r: String)
    ensures
        r@ == mtls_dir(home@, gateway_name@),
{
    let config = join_path(home, ".config");
    let openshell = join_path(config.as_str(), "openshell");
    let gateways = join_path(openshell.as_str(), "gateways");
    let gateway = join_path(gateways.as_str(), gateway_name);
    join_path(gateway.as_str(), "mtls")
}

/// The files in that directory, with their contents, in the order in which they
/// are written.
pub open spec fn mtls_files(dir: Seq<char>, bundle: PkiBundleView) -> Seq<(Seq<char>, Seq<char>)> {
    seq![
        (path_join(dir, "tls.crt"@), bundle.client_cert_pem),
        (path_join(dir, "tls.key"@), bundle.client_key_pem),
        (path_join(dir, "ca.crt"@), bundle.ca_cert_pem),
    ]
}

/// Lists the files in that directory.
pub fn client_files(dir: &str, bundle: &PkiBundle) -> (r: Vec<(String, String)>)
    ensures
        text::pair_views(r@) == mtls_files(dir@, bundle@),
{
    let mut files: Vec<(String, String)> = Vec::new();
    files.push((join_path(dir, "tls.crt"), bundle.client_cert_pem.clone()));
    files.push((join_path(dir, "tls.key"), bundle.client_key_pem.clone()));
    files.push((join_path(dir, "ca.crt"), bundle.ca_cert_pem.clone()));
    proof {
        assert(text::pair_views(files@) =~= mtls_files(dir@, bundle@));
    }
    files
}

// ---------------------------------------------------------------------------
// Steps
// ---------------------------------------------------------------------------

/// How many random bytes the SSH handshake secret is made from.
pub const HANDSHAKE_BYTES: usize = 32;

/// How far a run has come, by the action that is under way.
#[derive(Clone, Copy, Debug, PartialEq, Eq, Structural)]
pub enum InitStage {
    Connect,
    Namespace,
    LoadPki,
    GeneratePki,
    ClientSecret,
    ServerSecret,
    ClientCaSecret,
    FindHandshake,
    Random,
    CreateHandshake,
    Manifests,
    Adopt,
    ReadSettings,
    Probe,
    MakeTempDir,
    Login,
    PushFirst,
    PushSecond,
    Helm,
    FindHome,
    WriteFiles,
    StoreMetadata,
    SetActive,
}

/// A run under way. What has not been found out yet is empty.
pub struct ClusterInit {
    pub request: ClusterRequest,
    pub bundle: PkiBundle,
    pub random: Vec<u8>,
    pub settings: Settings,
    pub bundled: Bundled,
    /// How the registry is told who pushes.
    pub authfile: Option<String>,
    /// Whether the first of two images was pushed.
    pub pushed: bool,
    pub home: String,
    pub stage: InitStage,
}

pub struct ClusterInitView {
    pub request: ClusterRequestView,
    pub bundle: PkiBundleView,
    pub random: Seq<u8>,
    pub settings: SettingsView,
    pub bundled: Bundled,
    pub authfile: Option<Seq<char>>,
    pub pushed: bool,
    pub home: Seq<char>,
    pub stage: InitStage,
}

impl View for ClusterInit {
    type V = ClusterInitView;

    open spec fn view(&self) -> ClusterInitView {
        ClusterInitView {
            request: self.request@,
            bundle: self.bundle@,
            random: self.random@,
            settings: self.settings@,
            bundled: self.bundled,
            authfile: text::optional(self.authfile),
            pushed: self.pushed,
            home: self.home@,
            stage: self.stage,
        }
    }
}

/// What the caller is to do.
pub enum InitAction {
    /// Make a client of the cluster.
    Connect,
    /// Apply a namespace.
    ApplyNamespace(String),
    /// Load the certificates from a namespace, if they are there.
    LoadPki(String),
    /// Generate certificates.
    GeneratePki,
    /// Apply a secret.
    ApplySecret(SecretManifest),
    /// See whether there is a secret with this name in this namespace.
    FindSecret { name: String, namespace: String },
    /// Get this many random bytes.
    Random(usize),
    /// Create a secret that must not be there yet.
    CreateSecret(SecretManifest),
    /// Apply the manifests of the sandbox controller, with this namespace.
    ApplyManifests(String),
    /// Hand objects of earlier releases in a namespace over to the chart.
    AdoptLegacy(String),
    /// Read the environment.
    ReadSettings,
    /// See which of these archives are there.
    Probe { core: String, gateway: String, supervisor: String },
    /// Make a temporary directory, which lasts until the images are pushed.
    MakeTempDir,
    /// Log in to the registry.
    Login(Command),
    /// Push an image.
    Push(Command),
    /// Install the gateway.
    Helm(Command),
    /// Find the home directory.
    FindHome,
    /// Make a directory, with all above it, and write files.
    WriteFiles { dir: String, files: Vec<(String, String)> },
    /// Store what is known of the gateway.
    StoreMetadata(GatewayMetadata),
    /// Make the gateway with this name the active one.
    SetActive(String),
}

pub enum InitActionView {
    Connect,
    ApplyNamespace(Seq<char>),
    LoadPki(Seq<char>),
    GeneratePki,
    ApplySecret(SecretManifestView),
    FindSecret { name: Seq<char>, namespace: Seq<char> },
    Random(usize),
    CreateSecret(SecretManifestView),
    ApplyManifests(Seq<char>),
    AdoptLegacy(Seq<char>),
    ReadSettings,
    Probe { core: Seq<char>, gateway: Seq<char>, supervisor: Seq<char> },
    MakeTempDir,
    Login(CommandView),
    Push(CommandView),
    Helm(CommandView),
    FindHome,
    WriteFiles { dir: Seq<char>, files: Seq<(Seq<char>, Seq<char>)> },
    StoreMetadata(GatewayMetadataView),
    SetActive(Seq<char>),
}

impl View for InitAction {
    type V = InitActionView;

    open spec fn view(&self) -> InitActionView {
        match self {
            InitAction::Connect => InitActionView::Connect,
            InitAction::ApplyNamespace(n) => InitActionView::ApplyNamespace(n@),
            InitAction::LoadPki(n) => InitActionView::LoadPki(n@),
            InitAction::GeneratePki => InitActionView::GeneratePki,
            InitAction::ApplySecret(s) => InitActionView::ApplySecret(s@),
            InitAction::FindSecret { name, namespace } => InitActionView::FindSecret {
                name: name@,
                namespace: namespace@,
            },
            InitAction::Random(n) => InitActionView::Random(*n),
            InitAction::CreateSecret(s) => InitActionView::CreateSecret(s@),
            InitAction::ApplyManifests(n) => InitActionView::ApplyManifests(n@),
            InitAction::AdoptLegacy(n) => InitActionView::AdoptLegacy(n@),
            InitAction::ReadSettings => InitActionView::ReadSettings,
            InitAction::Probe { core, gateway, supervisor } => InitActionView::Probe {
                core: core@,
                gateway: gateway@,
                supervisor: supervisor@,
            },
            InitAction::MakeTempDir => InitActionView::MakeTempDir,
            InitAction::Login(c) => InitActionView::Login(c@),
            InitAction::Push(c) => InitActionView::Push(c@),
            InitAction::Helm(c) => InitActionView::Helm(c@),
            InitAction::FindHome => InitActionView::FindHome,
            InitAction::WriteFiles { dir, files } => InitActionView::WriteFiles {
                dir: dir@,
                files: text::pair_views(files@),
            },
            InitAction::StoreMetadata(m) => InitActionView::StoreMetadata(m@),
            InitAction::SetActive(n) => InitActionView::SetActive(n@),
        }
    }
}

/// What came of the attempt to get random bytes.
pub enum RandomOutcome {
    OpenFailed(String),
    ReadFailed(String),
    Bytes(Vec<u8>),
}

/// What came of the attempt to log in.
pub enum LoginOutcome {
    /// The command could not be started.
    SpawnFailed(String),
    /// The token could not be handed over.
    WriteFailed(String),
    /// The command could not be waited for.
    WaitFailed(String),
    /// The command ran, and said this on its standard error.
    Finished { success: bool, stderr: String },
}

/// What came of the attempt to install the gateway.
pub enum HelmOutcome {
    /// The command could not be run.
    ExecFailed(String),
    /// The command ran and ended with this status.
    Finished { success: bool, status: String },
}

/// What came of an action.
pub enum InitEvent {
    /// The action was done, or failed with this text.
    Done(Result<(), String>),
    /// What [`InitAction::LoadPki`] found.
    Loaded(Result<Option<PkiBundle>, String>),
    /// What [`InitAction::GeneratePki`] made.
    Generated(Result<PkiBundle, String>),
    /// Whether [`InitAction::FindSecret`] found the secret.
    Found(bool),
    /// What [`InitAction::Random`] gave.
    Random(RandomOutcome),
    /// What [`InitAction::ReadSettings`] read.
    SettingsRead(Settings),
    /// What [`InitAction::Probe`] found.
    Probed { core: bool, gateway: bool, supervisor: bool },
    /// The directory that [`InitAction::MakeTempDir`] made.
    TempDir(Result<String, String>),
    /// What came of [`InitAction::Login`].
    LoggedIn(LoginOutcome),
    /// Whether [`InitAction::Push`] succeeded.
    Pushed(bool),
    /// What came of [`InitAction::Helm`].
    HelmRan(HelmOutcome),
    /// The directory that [`InitAction::FindHome`] found.
    Home(Option<String>),
}

/// Whether an event can come of the action of a stage.
pub open spec fn fits(stage: InitStage, event: InitEvent) -> bool {
    match stage {
        InitStage::LoadPki => event is Loaded,
        InitStage::GeneratePki => event is Generated,
        InitStage::FindHandshake => event is Found,
        InitStage::Random => event is Random,
        InitStage::ReadSettings => event is SettingsRead,
        InitStage::Probe => event is Probed,
        InitStage::MakeTempDir => event is TempDir,
        InitStage::Login => event is LoggedIn,
        InitStage::PushFirst | InitStage::PushSecond => event is Pushed,
        InitStage::Helm => event is HelmRan,
        InitStage::FindHome => event is Home,
        _ => event is Done,
    }
}

/// Why a run failed: what was tried, where that is said, and what went wrong.
pub struct InitError {
    pub context: Option<String>,
    pub message: String,
}

pub struct InitErrorView {
    pub context: Option<Seq<char>>,
    pub message: Seq<char>,
}

impl View for InitError {
    type V = InitErrorView;

    open spec fn view(&self) -> InitErrorView {
        InitErrorView { context: text::optional(self.context), message: self.message@ }
    }
}

/// What to do next.
pub enum InitStep {
    /// Do this, and come back with what came of it.
    Act(ClusterInit, InitAction),
    /// The run is over.
    Done(Result<(), InitError>),
}

pub enum InitStepView {
    Act(ClusterInitView, InitActionView),
    Done(Result<(), InitErrorView>),
}

impl View for InitStep {
    type V = InitStepView;

    open spec fn view(&self) -> InitStepView {
        match self {
            InitStep::Act(run, action) => InitStepView::Act(run@, action@),
            InitStep::Done(Ok(())) => InitStepView::Done(Ok(())),
            InitStep::Done(Err(e)) => InitStepView::Done(Err(e@)),
        }
    }
}

/// The image that a push is about: the archive, and what it is called in the
/// registry.
pub open spec fn push_call(run: ClusterInitView) -> CommandView {
    let dir = match run.settings.images_dir {
        Some(dir) => dir,
        None => Seq::empty(),
    };
    let (source, target) = if run.bundled == Bundled::CoreRock {
        (core_rock(dir), run.request.registry + "/openshell-core:local"@)
    } else if run.stage == InitStage::PushFirst {
        (gateway_tar(dir), run.request.registry + "/openshell-gateway:dev"@)
    } else {
        (supervisor_tar(dir), run.request.registry + "/openshell-supervisor:dev"@)
    };
    copy_call(source, target, run.settings.temp_dir, run.authfile)
}

/// The login that a run needs, given the file that holds its outcome.
pub open spec fn run_login(run: ClusterInitView) -> CommandView {
    let authfile = match run.authfile {
        Some(path) => path,
        None => Seq::empty(),
    };
    match credentials_of(run.request) {
        Ok(CredentialsView::Login { username, token }) => login_call(
            authfile,
            username,
            token,
            run.request.registry,
        ),
        _ => login_call(authfile, Seq::empty(), Seq::empty(), run.request.registry),
    }
}

/// The action of a stage.
pub open spec fn action_of(run: ClusterInitView) -> InitActionView {
    let namespace = run.request.namespace;
    match run.stage {
        InitStage::Connect => InitActionView::Connect,
        InitStage::Namespace => InitActionView::ApplyNamespace(namespace),
        InitStage::LoadPki => InitActionView::LoadPki(namespace),
        InitStage::GeneratePki => InitActionView::GeneratePki,
        InitStage::ClientSecret => InitActionView::ApplySecret(
            client_tls_secret(namespace, run.bundle),
        ),
        InitStage::ServerSecret => InitActionView::ApplySecret(
            server_tls_secret(namespace, run.bundle),
        ),
        InitStage::ClientCaSecret => InitActionView::ApplySecret(
            client_ca_secret(namespace, run.bundle),
        ),
        InitStage::FindHandshake => InitActionView::FindSecret {
            name: constants::SSH_HANDSHAKE_SECRET_NAME@,
            namespace,
        },
        InitStage::Random => InitActionView::Random(HANDSHAKE_BYTES),
        InitStage::CreateHandshake => InitActionView::CreateSecret(
            handshake_secret(namespace, run.random),
        ),
        InitStage::Manifests => InitActionView::ApplyManifests(namespace),
        InitStage::Adopt => InitActionView::AdoptLegacy(namespace),
        InitStage::ReadSettings => InitActionView::ReadSettings,
        InitStage::Probe => {
            let dir = match run.settings.images_dir {
                Some(dir) => dir,
                None => Seq::empty(),
            };
            InitActionView::Probe {
                core: core_rock(dir),
                gateway: gateway_tar(dir),
                supervisor: supervisor_tar(dir),
            }
        },
        InitStage::MakeTempDir => InitActionView::MakeTempDir,
        InitStage::Login => InitActionView::Login(run_login(run)),
        InitStage::PushFirst | InitStage::PushSecond => InitActionView::Push(push_call(run)),
        InitStage::Helm => InitActionView::Helm(
            helm_call(run.settings, namespace, run.bundled, run.request.registry),
        ),
        InitStage::FindHome => InitActionView::FindHome,
        InitStage::WriteFiles => {
            let dir = mtls_dir(run.home, run.request.gateway_name);
            InitActionView::WriteFiles { dir, files: mtls_files(dir, run.bundle) }
        },
        InitStage::StoreMetadata => InitActionView::StoreMetadata(
            cluster_metadata(run.request.gateway_name),
        ),
        InitStage::SetActive => InitActionView::SetActive(run.request.gateway_name),
    }
}

/// A failure with a word on what was tried.
pub open spec fn in_context(context: Seq<char>, message: Seq<char>) -> InitErrorView {
    InitErrorView { context: Some(context), message }
}

/// A failure that speaks for itself.
pub open spec fn plainly(message: Seq<char>) -> InitErrorView {
    InitErrorView { context: None, message }
}

/// What is said when the action of a stage fails with this text.
pub open spec fn stage_failure(stage: InitStage, message: Seq<char>) -> InitErrorView {
    match stage {
        InitStage::Connect => in_context("failed to create Kubernetes client"@, message),
        InitStage::Namespace => in_context("failed to apply namespace"@, message),
        InitStage::GeneratePki => in_context("failed to generate PKI"@, message),
        InitStage::ClientSecret => in_context("failed to apply client TLS secret"@, message),
        InitStage::ServerSecret => in_context("failed to apply server TLS secret"@, message),
        InitStage::ClientCaSecret => in_context(
            "failed to apply server client CA secret"@,
            message,
        ),
        InitStage::CreateHandshake => in_context(
            "failed to create ssh handshake secret"@,
            message,
        ),
        InitStage::MakeTempDir => in_context(
            "Failed to create temporary directory for secure auth"@,
            message,
        ),
        _ => plainly(message),
    }
}

/// The stage after one whose action was done, where that is all there is to it.
pub open spec fn stage_following(stage: InitStage) -> InitStage {
    match stage {
        InitStage::Connect => InitStage::Namespace,
        InitStage::Namespace => InitStage::LoadPki,
        InitStage::ClientSecret => InitStage::ServerSecret,
        InitStage::ServerSecret => InitStage::ClientCaSecret,
        InitStage::ClientCaSecret => InitStage::FindHandshake,
        InitStage::CreateHandshake => InitStage::Manifests,
        InitStage::Manifests => InitStage::Adopt,
        InitStage::Adopt => InitStage::ReadSettings,
        InitStage::WriteFiles => InitStage::StoreMetadata,
        _ => InitStage::SetActive,
    }
}

/// What is said when an image could not be pushed.
pub open spec fn push_failure(registry: Seq<char>) -> InitErrorView {
    plainly("Local registry is not available or unreachable at "@ + registry + "."@)
}

/// The run in another stage.
pub open spec fn at(run: ClusterInitView, stage: InitStage) -> ClusterInitView {
    ClusterInitView { stage, ..run }
}

/// What follows when it is known which images came along.
pub open spec fn after_probe(run: ClusterInitView, bundled: Bundled) -> Result<
    ClusterInitView,
    Result<(), InitErrorView>,
> {
    if bundled == Bundled::Nothing {
        Ok(ClusterInitView { bundled, stage: InitStage::Helm, ..run })
    } else {
        match credentials_of(run.request) {
            Err(m) => Err(Err(plainly(m))),
            Ok(CredentialsView::File(path)) => Ok(
                ClusterInitView {
                    bundled,
                    authfile: Some(path),
                    stage: InitStage::PushFirst,
                    ..run
                },
            ),
            Ok(CredentialsView::Login { .. }) => Ok(
                ClusterInitView { bundled, stage: InitStage::MakeTempDir, ..run },
            ),
            Ok(CredentialsView::Anonymous) => Ok(
                ClusterInitView { bundled, authfile: None, stage: InitStage::PushFirst, ..run },
            ),
        }
    }
}

/// What follows a stage, by what came of its action: the run at its next stage,
/// or the end.
pub open spec fn advance(run: ClusterInitView, event: InitEvent) -> Result<
    ClusterInitView,
    Result<(), InitErrorView>,
> {
    match event {
        InitEvent::Done(Err(m)) => Err(Err(stage_failure(run.stage, m@))),
        InitEvent::Done(Ok(_)) => if run.stage == InitStage::SetActive {
            Err(Ok(()))
        } else {
            Ok(at(run, stage_following(run.stage)))
        },
        InitEvent::Loaded(Err(m)) => Err(Err(stage_failure(run.stage, m@))),
        InitEvent::Loaded(Ok(Some(bundle))) => Ok(
            ClusterInitView { bundle: bundle@, stage: InitStage::FindHandshake, ..run },
        ),
        InitEvent::Loaded(Ok(None)) => Ok(at(run, InitStage::GeneratePki)),
        InitEvent::Generated(Err(m)) => Err(Err(stage_failure(run.stage, m@))),
        InitEvent::Generated(Ok(bundle)) => Ok(
            ClusterInitView { bundle: bundle@, stage: InitStage::ClientSecret, ..run },
        ),
        InitEvent::Found(found) => Ok(
            at(
                run,
                if found {
                    InitStage::Manifests
                } else {
                    InitStage::Random
                },
            ),
        ),
        InitEvent::Random(RandomOutcome::OpenFailed(m)) => Err(
            Err(in_context("failed to open /dev/urandom"@, m@)),
        ),
        InitEvent::Random(RandomOutcome::ReadFailed(m)) => Err(
            Err(in_context("failed to read from /dev/urandom"@, m@)),
        ),
        InitEvent::Random(RandomOutcome::Bytes(bytes)) => Ok(
            ClusterInitView { random: bytes@, stage: InitStage::CreateHandshake, ..run },
        ),
        InitEvent::SettingsRead(settings) => if settings@.images_dir is Some {
            Ok(ClusterInitView { settings: settings@, stage: InitStage::Probe, ..run })
        } else {
            Ok(
                ClusterInitView {
                    settings: settings@,
                    bundled: Bundled::Nothing,
                    stage: InitStage::Helm,
                    ..run
                },
            )
        },
        InitEvent::Probed { core, gateway, supervisor } => after_probe(
            run,
            bundled_images(core, gateway, supervisor),
        ),
        InitEvent::TempDir(Err(m)) => Err(Err(stage_failure(run.stage, m@))),
        InitEvent::TempDir(Ok(dir)) => Ok(
            ClusterInitView {
                authfile: Some(path_join(dir@, "auth.json"@)),
                stage: InitStage::Login,
                ..run
            },
        ),
        InitEvent::LoggedIn(LoginOutcome::SpawnFailed(m)) => Err(
            Err(in_context("Failed to spawn skopeo login"@, m@)),
        ),
        InitEvent::LoggedIn(LoginOutcome::WriteFailed(m)) => Err(Err(plainly(m@))),
        InitEvent::LoggedIn(LoginOutcome::WaitFailed(m)) => Err(
            Err(in_context("Failed to wait on skopeo login"@, m@)),
        ),
        InitEvent::LoggedIn(LoginOutcome::Finished { success, stderr }) => if success {
            Ok(at(run, InitStage::PushFirst))
        } else {
            Err(
                Err(
                    plainly(
                        "Failed to authenticate with registry using skopeo login. Error:\n"@
                            + text::trimmed(stderr@),
                    ),
                ),
            )
        },
        InitEvent::Pushed(ok) => if run.stage == InitStage::PushFirst && run.bundled
            == Bundled::Archives {
            Ok(ClusterInitView { pushed: ok, stage: InitStage::PushSecond, ..run })
        } else if ok && (run.stage == InitStage::PushFirst || run.pushed) {
            Ok(at(run, InitStage::Helm))
        } else {
            Err(Err(push_failure(run.request.registry)))
        },
        InitEvent::HelmRan(HelmOutcome::ExecFailed(m)) => Err(
            Err(in_context("Failed to execute helm upgrade"@, m@)),
        ),
        InitEvent::HelmRan(HelmOutcome::Finished { success, status }) => if success {
            Ok(at(run, InitStage::FindHome))
        } else {
            Err(Err(plainly("Helm upgrade failed with status: "@ + status@)))
        },
        InitEvent::Home(Some(home)) => Ok(
            ClusterInitView { home: home@, stage: InitStage::WriteFiles, ..run },
        ),
        InitEvent::Home(None) => Err(Err(plainly("Could not find home directory"@))),
    }
}

/// The step after an event.
pub open spec fn init_next(run: ClusterInitView, event: InitEvent) -> InitStepView {
    match advance(run, event) {
        Ok(next) => InitStepView::Act(next, action_of(next)),
        Err(r) => InitStepView::Done(r),
    }
}

/// The state in which a run starts.
pub open spec fn init_state(request: ClusterRequestView) -> ClusterInitView {
    ClusterInitView {
        request,
        bundle: no_bundle(),
        random: Seq::empty(),
        settings: no_settings(),
        bundled: Bundled::Nothing,
        authfile: None,
        pushed: false,
        home: Seq::empty(),
        stage: InitStage::Connect,
    }
}

fn fail_with(context: &str, message: String) -> (r: InitStep)
    ensures
        r@ == InitStepView::Done(Err(in_context(context@, message@))),
{
    InitStep::Done(Err(InitError { context: Some(context.to_owned()), message }))
}

fn fail_plainly(message: String) -> (r: InitStep)
    ensures
        r@ == InitStepView::Done(Err(plainly(message@))),
{
    InitStep::Done(Err(InitError { context: None, message }))
}

fn fail_stage(stage: InitStage, message: String) -> (r: InitStep)
    ensures
        r@ == InitStepView::Done(Err(stage_failure(stage, message@))),
{
    match stage {
        InitStage::Connect => fail_with("failed to create Kubernetes client", message),
        InitStage::Namespace => fail_with("failed to apply namespace", message),
        InitStage::GeneratePki => fail_with("failed to generate PKI", message),
        InitStage::ClientSecret => fail_with("failed to apply client TLS secret", message),
        InitStage::ServerSecret => fail_with("failed to apply server TLS secret", message),
        InitStage::ClientCaSecret => fail_with("failed to apply server client CA secret", message),
        InitStage::CreateHandshake => fail_with("failed to create ssh handshake secret", message),
        InitStage::MakeTempDir => fail_with(
            "Failed to create temporary directory for secure auth",
            message,
        ),
        _ => fail_plainly(message),
    }
}

fn following(stage: InitStage) -> (r: InitStage)
    ensures
        r == stage_following(stage),
{
    match stage {
        InitStage::Connect => InitStage::Namespace,
        InitStage::Namespace => InitStage::LoadPki,
        InitStage::ClientSecret => InitStage::ServerSecret,
        InitStage::ServerSecret => InitStage::ClientCaSecret,
        InitStage::ClientCaSecret => InitStage::FindHandshake,
        InitStage::CreateHandshake => InitStage::Manifests,
        InitStage::Manifests => InitStage::Adopt,
        InitStage::Adopt => InitStage::ReadSettings,
        InitStage::WriteFiles => InitStage::StoreMetadata,
        _ => InitStage::SetActive,
    }
}

/// The first step to bring the gateway up on a cluster.
pub fn init_external_cluster(request: ClusterRequest) -> (r: InitStep)
    ensures
        r@ == InitStepView::Act(init_state(request@), InitActionView::Connect),
{
    let run = ClusterInit {
        request,
        bundle: PkiBundle {
            ca_cert_pem: String::new(),
            server_cert_pem: String::new(),
            server_key_pem: String::new(),
            client_cert_pem: String::new(),
            client_key_pem: String::new(),
        },
        random: Vec::new(),
        settings: Settings {
            helm_bin: None,
            chart_path: None,
            images_dir: None,
            temp_dir: String::new(),
        },
        bundled: Bundled::Nothing,
        authfile: None,
        pushed: false,
        home: String::new(),
        stage: InitStage::Connect,
    };
    InitStep::Act(run, InitAction::Connect)
}

impl ClusterInit {
    /// Whether an event can come of the action that is under way.
    pub fn accepts(&self, event: &InitEvent) -> (r: bool)
        ensures
            r == fits(self@.stage, *event),
    {
        match self.stage {
            InitStage::LoadPki => matches!(event, InitEvent::Loaded(_)),
            InitStage::GeneratePki => matches!(event, InitEvent::Generated(_)),
            InitStage::FindHandshake => matches!(event, InitEvent::Found(_)),
            InitStage::Random => matches!(event, InitEvent::Random(_)),
            InitStage::ReadSettings => matches!(event, InitEvent::SettingsRead(_)),
            InitStage::Probe => matches!(event, InitEvent::Probed { .. }),
            InitStage::MakeTempDir => matches!(event, InitEvent::TempDir(_)),
            InitStage::Login => matches!(event, InitEvent::LoggedIn(_)),
            InitStage::PushFirst | InitStage::PushSecond => matches!(event, InitEvent::Pushed(_)),
            InitStage::Helm => matches!(event, InitEvent::HelmRan(_)),
            InitStage::FindHome => matches!(event, InitEvent::Home(_)),
            _ => matches!(event, InitEvent::Done(_)),
        }
    }

    fn images_dir(&self) -> (r: String)
        ensures
            r@ == (match self@.settings.images_dir {
                Some(dir) => dir,
                None => Seq::empty(),
            }),
    {
        match &self.settings.images_dir {
            Some(dir) => dir.clone(),
            None => String::new(),
        }
    }

    fn push_command(&self) -> (r: Command)
        ensures
            r@ == push_call(self@),
    {
        let dir = self.images_dir();
        let registry = self.request.registry.clone();
        let (source, target) = if self.bundled == Bundled::CoreRock {
            (
                join_path(dir.as_str(), "openshell-core.rock"),
                registry.concat("/openshell-core:local"),
            )
        } else if self.stage == InitStage::PushFirst {
            (join_path(dir.as_str(), "gateway.tar"), registry.concat("/openshell-gateway:dev"))
        } else {
            (
                join_path(dir.as_str(), "supervisor.tar"),
                registry.concat("/openshell-supervisor:dev"),
            )
        };
        skopeo_copy(
            source.as_str(),
            target.as_str(),
            self.settings.temp_dir.as_str(),
            &self.authfile,
        )
    }

    fn login_command(&self) -> (r: Command)
        ensures
            r@ == run_login(self@),
    {
        let authfile = match &self.authfile {
            Some(path) => path.clone(),
            None => String::new(),
        };
        let registry = self.request.registry.as_str();
        match resolve_credentials(&self.request) {
            Ok(Credentials::Login { username, token }) => skopeo_login(
                authfile.as_str(),
                username.as_str(),
                token.as_str(),
                registry,
            ),
            _ => {
                let nothing = String::new();
                skopeo_login(authfile.as_str(), nothing.as_str(), nothing.as_str(), registry)
            },
        }
    }

    /// The action that is under way.
    pub fn action(&self) -> (r: InitAction)
        ensures
            r@ == action_of(self@),
    {
        let namespace = self.request.namespace.as_str();
        match self.stage {
            InitStage::Connect => InitAction::Connect,
            InitStage::Namespace => InitAction::ApplyNamespace(namespace.to_owned()),
            InitStage::LoadPki => InitAction::LoadPki(namespace.to_owned()),
            InitStage::GeneratePki => InitAction::GeneratePki,
            InitStage::ClientSecret => InitAction::ApplySecret(
                ensure_client_tls_secret(namespace, &self.bundle),
            ),
            InitStage::ServerSecret => InitAction::ApplySecret(
                ensure_server_tls_secret(namespace, &self.bundle),
            ),
            InitStage::ClientCaSecret => InitAction::ApplySecret(
                ensure_server_client_ca_secret(namespace, &self.bundle),
            ),
            InitStage::FindHandshake => InitAction::FindSecret {
                name: constants::SSH_HANDSHAKE_SECRET_NAME.to_owned(),
                namespace: namespace.to_owned(),
            },
            InitStage::Random => InitAction::Random(HANDSHAKE_BYTES),
            InitStage::CreateHandshake => InitAction::CreateSecret(
                ensure_ssh_handshake_secret(namespace, self.random.as_slice()),
            ),
            InitStage::Manifests => InitAction::ApplyManifests(namespace.to_owned()),
            InitStage::Adopt => InitAction::AdoptLegacy(namespace.to_owned()),
            InitStage::ReadSettings => InitAction::ReadSettings,
            InitStage::Probe => {
                let dir = self.images_dir();
                InitAction::Probe {
                    core: join_path(dir.as_str(), "openshell-core.rock"),
                    gateway: join_path(dir.as_str(), "gateway.tar"),
                    supervisor: join_path(dir.as_str(), "supervisor.tar"),
                }
            },
            InitStage::MakeTempDir => InitAction::MakeTempDir,
            InitStage::Login => InitAction::Login(self.login_command()),
            InitStage::PushFirst | InitStage::PushSecond => InitAction::Push(self.push_command()),
            InitStage::Helm => InitAction::Helm(
                helm_upgrade(
                    &self.settings,
                    namespace,
                    self.bundled,
                    self.request.registry.as_str(),
                ),
            ),
            InitStage::FindHome => InitAction::FindHome,
            InitStage::WriteFiles => {
                let dir = mtls_path(self.home.as_str(), self.request.gateway_name.as_str());
                let files = client_files(dir.as_str(), &self.bundle);
                InitAction::WriteFiles { dir, files }
            },
            InitStage::StoreMetadata => InitAction::StoreMetadata(
                gateway_metadata(self.request.gateway_name.as_str()),
            ),
            InitStage::SetActive => InitAction::SetActive(self.request.gateway_name.clone()),
        }
    }

    fn go_on(self, stage: InitStage) -> (r: InitStep)
        ensures
            r@ == InitStepView::Act(at(self@, stage), action_of(at(self@, stage))),
    {
        let run = ClusterInit { stage, ..self };
        let action = run.action();
        InitStep::Act(run, action)
    }

    fn with_bundle_kind(self, bundled: Bundled) -> (r: InitStep)
        ensures
            r@ == (match after_probe(self@, bundled) {
                Ok(next) => InitStepView::Act(next, action_of(next)),
                Err(e) => InitStepView::Done(e),
            }),
    {
        if bundled == Bundled::Nothing {
            return ClusterInit { bundled, ..self }.go_on(InitStage::Helm);
        }
        match resolve_credentials(&self.request) {
            Err(m) => fail_plainly(m),
            Ok(Credentials::File(path)) => ClusterInit {
                bundled,
                authfile: Some(path),
                ..self
            }.go_on(InitStage::PushFirst),
            Ok(Credentials::Login { username: _, token: _ }) => ClusterInit {
                bundled,
                ..self
            }.go_on(InitStage::MakeTempDir),
            Ok(Credentials::Anonymous) => ClusterInit { bundled, authfile: None, ..self }.go_on(
                InitStage::PushFirst,
            ),
        }
    }

    /// The step after an event.
    pub fn next(self, event: InitEvent) -> (r: InitStep)
        requires
            fits(self@.stage, event),
        ensures
            r@ == init_next(self@, event),
    {
        let stage = self.stage;
        match event {
            InitEvent::Done(Err(m)) => fail_stage(stage, m),
            InitEvent::Done(Ok(())) => if stage == InitStage::SetActive {
                InitStep::Done(Ok(()))
            } else {
                self.go_on(following(stage))
            },
            InitEvent::Loaded(Err(m)) => fail_stage(stage, m),
            InitEvent::Loaded(Ok(Some(bundle))) => ClusterInit { bundle, ..self }.go_on(
                InitStage::FindHandshake,
            ),
            InitEvent::Loaded(Ok(None)) => self.go_on(InitStage::GeneratePki),
            InitEvent::Generated(Err(m)) => fail_stage(stage, m),
            InitEvent::Generated(Ok(bundle)) => ClusterInit { bundle, ..self }.go_on(
                InitStage::ClientSecret,
            ),
            InitEvent::Found(found) => if found {
                self.go_on(InitStage::Manifests)
            } else {
                self.go_on(InitStage::Random)
            },
            InitEvent::Random(RandomOutcome::OpenFailed(m)) => fail_with(
                "failed to open /dev/urandom",
                m,
            ),
            InitEvent::Random(RandomOutcome::ReadFailed(m)) => fail_with(
                "failed to read from /dev/urandom",
                m,
            ),
            InitEvent::Random(RandomOutcome::Bytes(random)) => ClusterInit { random, ..self }.go_on(
                InitStage::CreateHandshake,
            ),
            InitEvent::SettingsRead(settings) => {
                if settings.images_dir.is_some() {
                    ClusterInit { settings, ..self }.go_on(InitStage::Probe)
                } else {
                    ClusterInit { settings, bundled: Bundled::Nothing, ..self }.go_on(
                        InitStage::Helm,
                    )
                }
            },
            InitEvent::Probed { core, gateway, supervisor } => self.with_bundle_kind(
                detect_bundle(core, gateway, supervisor),
            ),
            InitEvent::TempDir(Err(m)) => fail_stage(stage, m),
            InitEvent::TempDir(Ok(dir)) => {
                let authfile = join_path(dir.as_str(), "auth.json");
                ClusterInit { authfile: Some(authfile), ..self }.go_on(InitStage::Login)
            },
            InitEvent::LoggedIn(LoginOutcome::SpawnFailed(m)) => fail_with(
                "Failed to spawn skopeo login",
                m,
            ),
            InitEvent::LoggedIn(LoginOutcome::WriteFailed(m)) => fail_plainly(m),
            InitEvent::LoggedIn(LoginOutcome::WaitFailed(m)) => fail_with(
                "Failed to wait on skopeo login",
                m,
            ),
            InitEvent::LoggedIn(LoginOutcome::Finished { success, stderr }) => if success {
                self.go_on(InitStage::PushFirst)
            } else {
                fail_plainly(
                    "Failed to authenticate with registry using skopeo login. Error:\n".to_owned().concat(
                    text::trim(stderr.as_str()).as_str()),
                )
            },
            InitEvent::Pushed(ok) => if stage == InitStage::PushFirst && self.bundled
                == Bundled::Archives {
                ClusterInit { pushed: ok, ..self }.go_on(InitStage::PushSecond)
            } else if ok && (stage == InitStage::PushFirst || self.pushed) {
                self.go_on(InitStage::Helm)
            } else {
                fail_plainly(
                    "Local registry is not available or unreachable at ".to_owned().concat(
                        self.request.registry.as_str(),
                    ).concat("."),
                )
            },
            InitEvent::HelmRan(HelmOutcome::ExecFailed(m)) => fail_with(
                "Failed to execute helm upgrade",
                m,
            ),
            InitEvent::HelmRan(HelmOutcome::Finished { success, status }) => if success {
                self.go_on(InitStage::FindHome)
            } else {
                fail_plainly(
                    "Helm upgrade failed with status: ".to_owned().concat(status.as_str()),
                )
            },
            InitEvent::Home(Some(home)) => ClusterInit { home, ..self }.go_on(
                InitStage::WriteFiles,
            ),
            InitEvent::Home(None) => fail_plainly("Could not find home directory".to_owned()),
        }
    }
}

// ---------------------------------------------------------------------------
// Laws
// ---------------------------------------------------------------------------

/// The place of a stage in a run.
pub open spec fn rank(stage: InitStage) -> nat {
    match stage {
        InitStage::Connect => 0,
        InitStage::Namespace => 1,
        InitStage::LoadPki => 2,
        InitStage::GeneratePki => 3,
        InitStage::ClientSecret => 4,
        InitStage::ServerSecret => 5,
        InitStage::ClientCaSecret => 6,
        InitStage::FindHandshake => 7,
        InitStage::Random => 8,
        InitStage::CreateHandshake => 9,
        InitStage::Manifests => 10,
        InitStage::Adopt => 11,
        InitStage::ReadSettings => 12,
        InitStage::Probe => 13,
        InitStage::MakeTempDir => 14,
        InitStage::Login => 15,
        InitStage::PushFirst => 16,
        InitStage::PushSecond => 17,
        InitStage::Helm => 18,
        InitStage::FindHome => 19,
        InitStage::WriteFiles => 20,
        InitStage::StoreMetadata => 21,
        InitStage::SetActive => 22,
    }
}

/// Every step moves on to a later stage, so that a run takes no action twice and
/// comes to an end.
pub proof fn every_step_moves_on(run: ClusterInitView, event: InitEvent)
    requires
        fits(run.stage, event),
    ensures
        advance(run, event) matches Ok(next) ==> rank(run.stage) < rank(next.stage) <= rank(
            InitStage::SetActive,
        ),
{
}

/// A run succeeds only at its last stage.
pub proof fn success_comes_last(run: ClusterInitView, event: InitEvent)
    requires
        fits(run.stage, event),
    ensures
        advance(run, event) == Err::<ClusterInitView, Result<(), InitErrorView>>(Ok(()))
            ==> run.stage == InitStage::SetActive && event matches InitEvent::Done(Ok(_)),
{
}

/// Certificates are written to the cluster only when there were none and new
/// ones were generated: those that are there are never replaced.
pub proof fn existing_certificates_are_kept(run: ClusterInitView, event: InitEvent)
    requires
        fits(run.stage, event),
    ensures
        advance(run, event) matches Ok(next) ==> {
            &&& next.stage == InitStage::GeneratePki ==> run.stage == InitStage::LoadPki && event
                == InitEvent::Loaded(Ok(None))
            &&& next.stage == InitStage::ClientSecret ==> run.stage == InitStage::GeneratePki
            &&& next.stage == InitStage::ServerSecret ==> run.stage == InitStage::ClientSecret
            &&& next.stage == InitStage::ClientCaSecret ==> run.stage == InitStage::ServerSecret
        },
{
}

/// The secret of the SSH handshake is made only when there is none: running
/// sandboxes go on with the one that they know.
pub proof fn existing_handshake_secret_is_kept(run: ClusterInitView, event: InitEvent)
    requires
        fits(run.stage, event),
    ensures
        advance(run, event) matches Ok(next) ==> {
            &&& next.stage == InitStage::Random ==> run.stage == InitStage::FindHandshake && event
                == InitEvent::Found(false)
            &&& next.stage == InitStage::CreateHandshake ==> run.stage == InitStage::Random
        },
{
}

/// The gateway is installed only when its images can be pulled: there are none to
/// push, or all of them were pushed.
pub proof fn gateway_is_installed_after_its_images(run: ClusterInitView, event: InitEvent)
    requires
        fits(run.stage, event),
    ensures
        advance(run, event) matches Ok(next) ==> next.stage == InitStage::Helm ==> {
            ||| next.bundled == Bundled::Nothing
            ||| event == InitEvent::Pushed(true) && run.stage == InitStage::PushFirst
                && run.bundled == Bundled::CoreRock
            ||| event == InitEvent::Pushed(true) && run.stage == InitStage::PushSecond
                && run.pushed
        },
{
}

/// What was asked for does not change in a run, and neither do the certificates
/// once they are known: clients get those that the cluster has.
pub proof fn certificates_do_not_change(run: ClusterInitView, event: InitEvent)
    requires
        fits(run.stage, event),
    ensures
        advance(run, event) matches Ok(next) ==> {
            &&& next.request == run.request
            &&& run.stage != InitStage::LoadPki && run.stage != InitStage::GeneratePki
                ==> next.bundle == run.bundle
        },
{
}

} // verus!

//! Applies the objects of a YAML manifest to a cluster.
//!
//! The documents are read here, and it is decided here what is applied where.
//! Finding out what kinds of objects the cluster knows, and sending the objects,
//! is left to the caller.
use vstd::prelude::*;
use vstd::string::*;
use kube::api::DynamicObject;
use crate::json::Json;
use crate::text;

verus! {

/// Who is noted as the manager of the fields of applied objects.
pub const FIELD_MANAGER: &'static str = "openshell-bootstrap";

/// How often the kinds of objects that the cluster knows are asked for.
pub const DISCOVERY_ATTEMPTS: u32 = 10;

/// How long to wait before they are asked for again, in milliseconds.
pub const DISCOVERY_RETRY_MILLIS: u64 = 500;

// ---------------------------------------------------------------------------
// Documents
// ---------------------------------------------------------------------------

/// A value of `serde_yml`.
#[verifier::external_type_specification]
#[verifier::external_body]
pub struct ExYamlValue(serde_yml::Value);

/// An error of `serde_yml`.
#[verifier::external_type_specification]
#[verifier::external_body]
pub struct ExYamlError(serde_yml::Error);

/// An object of the cluster whose kind is known only at run time.
#[verifier::external_type_specification]
#[verifier::external_body]
pub struct ExDynamicObject(kube::api::DynamicObject);

/// The error of `kube` for an API version that it cannot read.
#[verifier::external_type_specification]
#[verifier::external_body]
pub struct ExGroupVersionError(kube::core::gvk::ParseGroupVersionError);

/// What a YAML value holds. A number is held by its text.
pub enum Yaml {
    Null,
    Bool(bool),
    Number(Seq<char>),
    Text(Seq<char>),
    Sequence(Seq<Yaml>),
    Mapping(Seq<(Yaml, Yaml)>),
    Tagged(Seq<char>, Box<Yaml>),
}

/// The contents of a `serde_yml` value.
pub uninterp spec fn yaml_of(value: serde_yml::Value) -> Yaml;

/// The text that an error of `serde_yml` prints.
pub uninterp spec fn yaml_error_text(e: serde_yml::Error) -> Seq<char>;

/// The text that the error of `kube` for an API version prints.
pub uninterp spec fn group_version_error_text(
    e: kube::core::gvk::ParseGroupVersionError,
) -> Seq<char>;

/// The contents of the documents that `serde_yml` reads from a text or, when it
/// cannot read one of them, what the error says.
pub uninterp spec fn yaml_stream(yaml: Seq<char>) -> Result<Seq<Yaml>, Seq<char>>;

/// The contents of a `DynamicObject` of `kube`: the JSON that is sent for it.
pub uninterp spec fn object_contents(object: kube::api::DynamicObject) -> Json;

/// The object that `serde_yml::from_value` reads as a `DynamicObject` of `kube`
/// from a document with these contents or, when it cannot, what the error says.
pub uninterp spec fn object_read(value: Yaml) -> Result<ObjectView, Seq<char>>;

/// An object: what it says of itself, and all that it holds.
pub struct ObjectView {
    pub header: ObjectHeaderView,
    pub contents: Json,
}

/// What an object says of itself.
pub struct ObjectHeader {
    /// API version and kind.
    pub types: Option<(String, String)>,
    pub namespace: Option<String>,
    pub name: Option<String>,
}

pub struct ObjectHeaderView {
    pub types: Option<(Seq<char>, Seq<char>)>,
    pub namespace: Option<Seq<char>>,
    pub name: Option<Seq<char>>,
}

impl View for ObjectHeader {
    type V = ObjectHeaderView;

    open spec fn view(&self) -> ObjectHeaderView {
        ObjectHeaderView {
            types: match self.types {
                Some((api_version, kind)) => Some((api_version@, kind@)),
                None => None,
            },
            namespace: text::optional(self.namespace),
            name: text::optional(self.name),
        }
    }
}

/// Calls `serde_yml::Deserializer::from_str`, which walks the documents of a
/// YAML stream, and `serde_yml::Value::deserialize` on each of them. The outcome
/// is named by [`yaml_stream`]. It ends with the first document that cannot be read.
#[verifier::external_body]
fn yaml_documents(yaml: &str) -> (r: Result<Vec<serde_yml::Value>, serde_yml::Error>)
    ensures
        (match r {
            Ok(docs) => Ok(docs@.map_values(|v: serde_yml::Value| yaml_of(v))),
            Err(e) => Err(yaml_error_text(e)),
        }) == yaml_stream(yaml@),
{
    serde_yml::Deserializer::from_str(yaml).map(
        |doc| <serde_yml::Value as serde::Deserialize>::deserialize(doc),
    ).collect()
}

/// A value without its tags.
pub open spec fn untagged(value: Yaml) -> Yaml
    decreases value,
{
    match value {
        Yaml::Tagged(_, inner) => untagged(*inner),
        other => other,
    }
}

/// `serde_yml::Value::is_null`: whether the value is null, with or without tags.
#[verifier::external_body]
fn yaml_is_null(value: &serde_yml::Value) -> (r: bool)
    ensures
        r == (untagged(yaml_of(*value)) is Null),
{
    value.is_null()
}

/// `serde_yml::from_value` into a `kube::api::DynamicObject`, and what the object
/// says of itself. The outcome is named by [`object_read`].
#[verifier::external_body]
fn read_object(value: serde_yml::Value) -> (r: Result<
    (DynamicObject, ObjectHeader),
    serde_yml::Error,
>)
    ensures
        (match r {
            Ok((object, header)) => Ok(
                (ObjectView { header: header@, contents: object_contents(object) }),
            ),
            Err(e) => Err(yaml_error_text(e)),
        }) == object_read(yaml_of(value)),
{
    let object: DynamicObject = serde_yml::from_value(value)?;
    let header = ObjectHeader {
        types: object.types.as_ref().map(|t| (t.api_version.clone(), t.kind.clone())),
        namespace: object.metadata.namespace.clone(),
        name: object.metadata.name.clone(),
    };
    Ok((object, header))
}

// ---------------------------------------------------------------------------
// Kinds
// ---------------------------------------------------------------------------

/// The group and the version that an API version stands for: what comes before
/// and after its first slash, and no group where there is none.
pub open spec fn group_version(api_version: Seq<char>) -> (Seq<char>, Seq<char>) {
    if api_version.contains('/') {
        let i = api_version.index_of_first('/')->0;
        (api_version.take(i), api_version.skip(i + 1))
    } else {
        (Seq::empty(), api_version)
    }
}

/// Group, version and kind of an object.
pub struct Gvk {
    pub group: String,
    pub version: String,
    pub kind: String,
}

pub struct GvkView {
    pub group: Seq<char>,
    pub version: Seq<char>,
    pub kind: Seq<char>,
}

impl View for Gvk {
    type V = GvkView;

    open spec fn view(&self) -> GvkView {
        GvkView { group: self.group@, version: self.version@, kind: self.kind@ }
    }
}

/// The group, version and kind that the types of an object stand for.
pub open spec fn gvk_view(api_version: Seq<char>, kind: Seq<char>) -> GvkView {
    GvkView { group: group_version(api_version).0, version: group_version(api_version).1, kind }
}

/// `kube::api::GroupVersionKind::try_from` on a `TypeMeta`: cuts the API version
/// in two at its first slash. An API version without a slash has no group. There
/// is no API version that it refuses.
#[verifier::external_body]
fn group_version_kind(api_version: String, kind: String) -> (r: Result<
    Gvk,
    kube::core::gvk::ParseGroupVersionError,
>)
    ensures
        r is Ok,
        r->Ok_0@ == gvk_view(api_version@, kind@),
{
    let types = kube::api::TypeMeta { api_version, kind };
    let gvk = kube::api::GroupVersionKind::try_from(&types)?;
    Ok(Gvk { group: gvk.group, version: gvk.version, kind: gvk.kind })
}

// ---------------------------------------------------------------------------
// Errors
// ---------------------------------------------------------------------------

/// `ToString::to_string` on an error of `serde_yml`: what it prints, which
/// [`yaml_error_text`] names.
#[verifier::external_body]
fn yaml_error_message(e: &serde_yml::Error) -> (r: String)
    ensures
        r@ == yaml_error_text(*e),
{
    e.to_string()
}

/// `ToString::to_string` on the error of `kube` for an API version: what it
/// prints, which [`group_version_error_text`] names.
#[verifier::external_body]
fn group_version_error_message(e: &kube::core::gvk::ParseGroupVersionError) -> (r: String)
    ensures
        r@ == group_version_error_text(*e),
{
    e.to_string()
}

/// Why a manifest was not applied.
pub enum ApplyError {
    /// A document is no YAML, or no object.
    Yaml(serde_yml::Error),
    /// The API version of an object cannot be read.
    GroupVersion(kube::core::gvk::ParseGroupVersionError),
    /// An object does not say what it is.
    MissingTypes,
    /// The cluster does not know objects of this kind.
    UnknownKind { group: String, kind: String },
    /// An object has no name.
    MissingName { kind: String },
}

/// Why a manifest was not applied. An error of a library is held by its text.
pub enum ApplyErrorView {
    Yaml(Seq<char>),
    GroupVersion(Seq<char>),
    MissingTypes,
    UnknownKind { group: Seq<char>, kind: Seq<char> },
    MissingName { kind: Seq<char> },
}

impl View for ApplyError {
    type V = ApplyErrorView;

    open spec fn view(&self) -> ApplyErrorView {
        match self {
            ApplyError::Yaml(e) => ApplyErrorView::Yaml(yaml_error_text(*e)),
            ApplyError::GroupVersion(e) => ApplyErrorView::GroupVersion(
                group_version_error_text(*e),
            ),
            ApplyError::MissingTypes => ApplyErrorView::MissingTypes,
            ApplyError::UnknownKind { group, kind } => ApplyErrorView::UnknownKind {
                group: group@,
                kind: kind@,
            },
            ApplyError::MissingName { kind } => ApplyErrorView::MissingName { kind: kind@ },
        }
    }
}

/// The text of an error: that of the library it comes from, or one of its own.
pub open spec fn error_text(e: ApplyErrorView) -> Seq<char> {
    match e {
        ApplyErrorView::Yaml(text) | ApplyErrorView::GroupVersion(text) => text,
        ApplyErrorView::MissingTypes => "YAML object is missing type metadata"@,
        ApplyErrorView::UnknownKind { group, kind } => "unknown GVK: "@ + group + "/"@ + kind,
        ApplyErrorView::MissingName { kind } => "YAML object of kind '"@ + kind
            + "' is missing a name"@,
    }
}

impl ApplyError {
    /// The text of the error.
    pub fn text(&self) -> (r: String)
        ensures
            r@ == error_text(self@),
    {
        match self {
            ApplyError::Yaml(e) => yaml_error_message(e),
            ApplyError::GroupVersion(e) => group_version_error_message(e),
            ApplyError::MissingTypes => "YAML object is missing type metadata".to_owned(),
            ApplyError::UnknownKind { group, kind } => "unknown GVK: ".to_owned().concat(
                group.as_str(),
            ).concat("/").concat(kind.as_str()),
            ApplyError::MissingName { kind } => "YAML object of kind '".to_owned().concat(
                kind.as_str(),
            ).concat("' is missing a name"),
        }
    }
}

// ---------------------------------------------------------------------------
// Objects
// ---------------------------------------------------------------------------

/// An object of a manifest.
pub struct ManifestObject {
    pub object: DynamicObject,
    pub gvk: Gvk,
    /// The namespace that the object asks for.
    pub namespace: Option<String>,
    pub name: Option<String>,
}

pub struct ManifestObjectView {
    pub contents: Json,
    pub gvk: GvkView,
    pub namespace: Option<Seq<char>>,
    pub name: Option<Seq<char>>,
}

impl View for ManifestObject {
    type V = ManifestObjectView;

    open spec fn view(&self) -> ManifestObjectView {
        ManifestObjectView {
            contents: object_contents(self.object),
            gvk: self.gvk@,
            namespace: text::optional(self.namespace),
            name: text::optional(self.name),
        }
    }
}

/// What an object with the given header is: its kind, its namespace and its name.
/// It has to say its kind.
pub open spec fn header_class(header: ObjectHeaderView) -> Result<
    (GvkView, Option<Seq<char>>, Option<Seq<char>>),
    ApplyErrorView,
> {
    match header.types {
        None => Err(ApplyErrorView::MissingTypes),
        Some((api_version, kind)) => Ok(
            (gvk_view(api_version, kind), header.namespace, header.name),
        ),
    }
}

/// The object that a document holds.
pub open spec fn document_object(doc: Yaml) -> Result<ManifestObjectView, ApplyErrorView> {
    match object_read(doc) {
        Err(text) => Err(ApplyErrorView::Yaml(text)),
        Ok(object) => match header_class(object.header) {
            Ok((gvk, namespace, name)) => Ok(
                ManifestObjectView { contents: object.contents, gvk, namespace, name },
            ),
            Err(e) => Err(e),
        },
    }
}

/// Says what an object is, given its header.
pub fn classify(header: ObjectHeader) -> (r: Result<
    (Gvk, Option<String>, Option<String>),
    ApplyError,
>)
    ensures
        (match r {
            Ok((gvk, namespace, name)) => Ok(
                (gvk@, text::optional(namespace), text::optional(name)),
            ),
            Err(e) => Err(e@),
        }) == header_class(header@),
{
    let ObjectHeader { types, namespace, name } = header;
    match types {
        None => Err(ApplyError::MissingTypes),
        Some((api_version, kind)) => match group_version_kind(api_version, kind) {
            Ok(gvk) => Ok((gvk, namespace, name)),
            Err(e) => Err(ApplyError::GroupVersion(e)),
        },
    }
}

/// Where and under which name an object is applied.
pub struct PatchTarget {
    /// The namespace, for objects that live in one.
    pub namespace: Option<String>,
    pub name: String,
}

/// Where an object is applied, given whether the cluster knows its kind and, if
/// it does, whether such objects live in a namespace. An object that asks for no
/// namespace goes to the given one.
pub open spec fn patch_target(
    object: ManifestObjectView,
    namespaced: Option<bool>,
    namespace: Seq<char>,
) -> Result<(Option<Seq<char>>, Seq<char>), ApplyErrorView> {
    match namespaced {
        None => Err(
            ApplyErrorView::UnknownKind { group: object.gvk.group, kind: object.gvk.kind },
        ),
        Some(in_namespace) => match object.name {
            None => Err(ApplyErrorView::MissingName { kind: object.gvk.kind }),
            Some(name) => Ok(
                (
                    if in_namespace {
                        Some(
                            match object.namespace {
                                Some(own) => own,
                                None => namespace,
                            },
                        )
                    } else {
                        None
                    },
                    name,
                ),
            ),
        },
    }
}

impl ManifestObject {
    /// Decides where the object is applied.
    pub fn target(&self, namespaced: Option<bool>, namespace: &str) -> (r: Result<
        PatchTarget,
        ApplyError,
    >)
        ensures
            (match r {
                Ok(t) => Ok((text::optional(t.namespace), t.name@)),
                Err(e) => Err(e@),
            }) == patch_target(self@, namespaced, namespace@),
    {
        match namespaced {
            None => Err(
                ApplyError::UnknownKind {
                    group: self.gvk.group.clone(),
                    kind: self.gvk.kind.clone(),
                },
            ),
            Some(in_namespace) => match &self.name {
                None => Err(ApplyError::MissingName { kind: self.gvk.kind.clone() }),
                Some(name) => {
                    let namespace = if in_namespace {
                        match &self.namespace {
                            Some(own) => Some(own.clone()),
                            None => Some(namespace.to_owned()),
                        }
                    } else {
                        None
                    };
                    Ok(PatchTarget { namespace, name: name.clone() })
                },
            },
        }
    }

    /// What is said when the object could not be sent.
    pub fn failure(&self, name: &str) -> (r: String)
        ensures
            r@ == "Failed to apply "@ + self@.gvk.kind + " "@ + name@,
    {
        "Failed to apply ".to_owned().concat(self.gvk.kind.as_str()).concat(" ").concat(name)
    }
}

// ---------------------------------------------------------------------------
// Manifests
// ---------------------------------------------------------------------------

/// The documents of a manifest that have not been applied yet.
pub struct Manifest {
    pub documents: Vec<serde_yml::Value>,
}

impl View for Manifest {
    type V = Seq<Yaml>;

    open spec fn view(&self) -> Seq<Yaml> {
        self.documents@.map_values(|v: serde_yml::Value| yaml_of(v))
    }
}

/// The documents from the first one on that holds something.
pub open spec fn skip_nulls(docs: Seq<Yaml>) -> Seq<Yaml>
    decreases docs.len(),
{
    if docs.len() > 0 && untagged(docs[0]) is Null {
        skip_nulls(docs.drop_first())
    } else {
        docs
    }
}

/// What the next object of a manifest is.
pub open spec fn next_outcome(docs: Seq<Yaml>) -> Result<
    Option<ManifestObjectView>,
    ApplyErrorView,
> {
    let rest = skip_nulls(docs);
    if rest.len() == 0 {
        Ok(None)
    } else {
        match document_object(rest[0]) {
            Ok(o) => Ok(Some(o)),
            Err(e) => Err(e),
        }
    }
}

impl Manifest {
    /// Takes the next object out of the manifest. Documents that hold nothing
    /// are passed over.
    pub fn next_object(&mut self) -> (r: Result<Option<ManifestObject>, ApplyError>)
        ensures
            (match r {
                Ok(Some(o)) => Ok(Some(o@)),
                Ok(None) => Ok(None),
                Err(e) => Err(e@),
            }) == next_outcome(old(self)@),
            skip_nulls(old(self)@).len() > 0 ==> final(self)@ == skip_nulls(
                old(self)@,
            ).drop_first(),
            skip_nulls(old(self)@).len() == 0 ==> final(self)@ == Seq::<Yaml>::empty(),
    {
        let ghost all = self@;
        while self.documents.len() > 0 && yaml_is_null(&self.documents[0])
            invariant
                skip_nulls(self@) == skip_nulls(all),
            decreases self.documents.len(),
        {
            let ghost before = self@;
            let _ = self.documents.remove(0);
            proof {
                assert(self@ =~= before.drop_first());
            }
        }
        proof {
            assert(skip_nulls(self@) == self@);
        }
        if self.documents.len() == 0 {
            proof {
                assert(self@ =~= Seq::empty());
            }
            return Ok(None);
        }
        let ghost rest = self@;
        let value = self.documents.remove(0);
        proof {
            assert(self@ =~= rest.drop_first());
            assert(yaml_of(value) == rest[0]);
        }
        match read_object(value) {
            Err(e) => Err(ApplyError::Yaml(e)),
            Ok((object, header)) => match classify(header) {
                Err(e) => Err(e),
                Ok((gvk, namespace, name)) => Ok(
                    Some(ManifestObject { object, gvk, namespace, name }),
                ),
            },
        }
    }
}

// ---------------------------------------------------------------------------
// Steps
// ---------------------------------------------------------------------------

/// Why a run failed.
pub enum ApplyFailure {
    /// The manifest does not fit the cluster, or cannot be read.
    Manifest(ApplyError),
    /// It could not be found out what kinds of objects the cluster knows.
    Discovery(String),
    /// An object could not be sent.
    Patch { context: String, message: String },
}

pub enum ApplyFailureView {
    Manifest(ApplyErrorView),
    Discovery(Seq<char>),
    Patch { context: Seq<char>, message: Seq<char> },
}

impl View for ApplyFailure {
    type V = ApplyFailureView;

    open spec fn view(&self) -> ApplyFailureView {
        match self {
            ApplyFailure::Manifest(e) => ApplyFailureView::Manifest(e@),
            ApplyFailure::Discovery(m) => ApplyFailureView::Discovery(m@),
            ApplyFailure::Patch { context, message } => ApplyFailureView::Patch {
                context: context@,
                message: message@,
            },
        }
    }
}

/// A run that has to find out what kinds of objects the cluster knows.
pub struct Discovering {
    pub manifest: Manifest,
    pub namespace: String,
    /// How many attempts have failed. There is a pause of
    /// [`DISCOVERY_RETRY_MILLIS`] before every attempt but the first.
    pub failed: u32,
}

/// A run that has to find out whether the cluster knows the kind of an object.
pub struct Resolving {
    pub manifest: Manifest,
    pub namespace: String,
    pub object: ManifestObject,
}

/// A run that has to send an object.
pub struct Patching {
    pub manifest: Manifest,
    pub namespace: String,
    pub object: ManifestObject,
    pub target: PatchTarget,
}

/// What to do next to apply a manifest.
pub enum ApplyStep {
    /// Find out what kinds of objects the cluster knows.
    Discover(Discovering),
    /// Find out whether the kind of the object is known, and if so, whether such
    /// objects live in a namespace.
    Resolve(Resolving),
    /// Send the object to its target, as [`FIELD_MANAGER`] and by force.
    Patch(Patching),
    /// The run is over.
    Done(Result<(), ApplyFailure>),
}

pub enum ApplyStepView {
    Discover { docs: Seq<Yaml>, namespace: Seq<char>, failed: u32 },
    Resolve { docs: Seq<Yaml>, namespace: Seq<char>, object: ManifestObjectView },
    Patch {
        docs: Seq<Yaml>,
        namespace: Seq<char>,
        object: ManifestObjectView,
        target: (Option<Seq<char>>, Seq<char>),
    },
    Done(Result<(), ApplyFailureView>),
}

impl View for ApplyStep {
    type V = ApplyStepView;

    open spec fn view(&self) -> ApplyStepView {
        match self {
            ApplyStep::Discover(run) => ApplyStepView::Discover {
                docs: run.manifest@,
                namespace: run.namespace@,
                failed: run.failed,
            },
            ApplyStep::Resolve(run) => ApplyStepView::Resolve {
                docs: run.manifest@,
                namespace: run.namespace@,
                object: run.object@,
            },
            ApplyStep::Patch(run) => ApplyStepView::Patch {
                docs: run.manifest@,
                namespace: run.namespace@,
                object: run.object@,
                target: (text::optional(run.target.namespace), run.target.name@),
            },
            ApplyStep::Done(Ok(())) => ApplyStepView::Done(Ok(())),
            ApplyStep::Done(Err(e)) => ApplyStepView::Done(Err(e@)),
        }
    }
}

/// The step to the next object of a manifest.
pub open spec fn to_next_object(docs: Seq<Yaml>, namespace: Seq<char>) -> ApplyStepView {
    match next_outcome(docs) {
        Ok(None) => ApplyStepView::Done(Ok(())),
        Ok(Some(object)) => ApplyStepView::Resolve {
            docs: skip_nulls(docs).drop_first(),
            namespace,
            object,
        },
        Err(e) => ApplyStepView::Done(Err(ApplyFailureView::Manifest(e))),
    }
}

fn next_step(manifest: Manifest, namespace: String) -> (r: ApplyStep)
    ensures
        r@ == to_next_object(manifest@, namespace@),
{
    let mut manifest = manifest;
    match manifest.next_object() {
        Ok(None) => ApplyStep::Done(Ok(())),
        Ok(Some(object)) => ApplyStep::Resolve(Resolving { manifest, namespace, object }),
        Err(e) => ApplyStep::Done(Err(ApplyFailure::Manifest(e))),
    }
}

/// The first step to apply a manifest to a namespace. All documents are read
/// before anything is sent.
pub fn apply_yaml(yaml: &str, namespace: &str) -> (r: ApplyStep)
    ensures
        r@ == (match yaml_stream(yaml@) {
            Ok(docs) => ApplyStepView::Discover { docs, namespace: namespace@, failed: 0 },
            Err(text) => ApplyStepView::Done(
                Err(ApplyFailureView::Manifest(ApplyErrorView::Yaml(text))),
            ),
        }),
{
    match yaml_documents(yaml) {
        Ok(documents) => ApplyStep::Discover(
            Discovering {
                manifest: Manifest { documents },
                namespace: namespace.to_owned(),
                failed: 0,
            },
        ),
        Err(e) => ApplyStep::Done(Err(ApplyFailure::Manifest(ApplyError::Yaml(e)))),
    }
}

impl Discovering {
    /// The step after an attempt: the first object, another attempt, or the end
    /// when [`DISCOVERY_ATTEMPTS`] have failed.
    pub fn after(self, discovered: Result<(), String>) -> (r: ApplyStep)
        ensures
            r@ == (match discovered {
                Ok(_) => to_next_object(self.manifest@, self.namespace@),
                Err(m) => if self.failed + 1 < DISCOVERY_ATTEMPTS {
                    ApplyStepView::Discover {
                        docs: self.manifest@,
                        namespace: self.namespace@,
                        failed: (self.failed + 1) as u32,
                    }
                } else {
                    ApplyStepView::Done(Err(ApplyFailureView::Discovery(m@)))
                },
            }),
    {
        match discovered {
            Ok(()) => next_step(self.manifest, self.namespace),
            Err(m) => if self.failed < DISCOVERY_ATTEMPTS - 1 {
                let failed: u32 = self.failed + 1;
                ApplyStep::Discover(Discovering { failed, ..self })
            } else {
                ApplyStep::Done(Err(ApplyFailure::Discovery(m)))
            },
        }
    }
}

impl Resolving {
    /// The step after the kind of the object was looked up: send it, or fail.
    pub fn after(self, namespaced: Option<bool>) -> (r: ApplyStep)
        ensures
            r@ == (match patch_target(self.object@, namespaced, self.namespace@) {
                Ok(target) => ApplyStepView::Patch {
                    docs: self.manifest@,
                    namespace: self.namespace@,
                    object: self.object@,
                    target,
                },
                Err(e) => ApplyStepView::Done(Err(ApplyFailureView::Manifest(e))),
            }),
    {
        match self.object.target(namespaced, self.namespace.as_str()) {
            Ok(target) => ApplyStep::Patch(
                Patching {
                    manifest: self.manifest,
                    namespace: self.namespace,
                    object: self.object,
                    target,
                },
            ),
            Err(e) => ApplyStep::Done(Err(ApplyFailure::Manifest(e))),
        }
    }
}

impl Patching {
    /// The step after the object was sent: the next object, or the end when it
    /// was refused.
    pub fn after(self, sent: Result<(), String>) -> (r: ApplyStep)
        ensures
            r@ == (match sent {
                Ok(_) => to_next_object(self.manifest@, self.namespace@),
                Err(m) => ApplyStepView::Done(
                    Err(
                        ApplyFailureView::Patch {
                            context: "Failed to apply "@ + self.object@.gvk.kind + " "@
                                + self.target.name@,
                            message: m@,
                        },
                    ),
                ),
            }),
    {
        match sent {
            Ok(()) => next_step(self.manifest, self.namespace),
            Err(message) => {
                let context = self.object.failure(self.target.name.as_str());
                ApplyStep::Done(Err(ApplyFailure::Patch { context, message }))
            },
        }
    }
}

/// Every object takes its document off the manifest, so that a run comes to an
/// end and takes no document twice.
pub proof fn every_object_shortens_the_manifest(docs: Seq<Yaml>, namespace: Seq<char>)
    ensures
        to_next_object(docs, namespace) matches ApplyStepView::Resolve { docs: rest, .. }
            ==> rest.len() < docs.len(),
    decreases docs.len(),
{
    if docs.len() > 0 && untagged(docs[0]) is Null {
        every_object_shortens_the_manifest(docs.drop_first(), namespace);
    }
}

/// What the documents of a manifest hold, in order, without those that hold
/// nothing.
pub open spec fn manifest_objects(docs: Seq<Yaml>) -> Seq<
    Result<ManifestObjectView, ApplyErrorView>,
>
    decreases docs.len(),
{
    if docs.len() == 0 {
        Seq::empty()
    } else if untagged(docs[0]) is Null {
        manifest_objects(docs.drop_first())
    } else {
        seq![document_object(docs[0])] + manifest_objects(docs.drop_first())
    }
}

/// The objects of a manifest come one after the other, each once and in order: a
/// step takes the first, and leaves the others for the steps after it. A document
/// that holds no object ends the run when its turn comes.
pub proof fn objects_come_in_order(docs: Seq<Yaml>)
    ensures
        manifest_objects(docs).len() == 0 ==> next_outcome(docs) == Ok::<
            Option<ManifestObjectView>,
            ApplyErrorView,
        >(None),
        manifest_objects(docs).len() > 0 ==> {
            &&& next_outcome(docs) == (match manifest_objects(docs)[0] {
                Ok(object) => Ok(Some(object)),
                Err(e) => Err(e),
            })
            &&& manifest_objects(skip_nulls(docs).drop_first()) == manifest_objects(
                docs,
            ).drop_first()
        },
    decreases docs.len(),
{
    if docs.len() > 0 {
        if untagged(docs[0]) is Null {
            objects_come_in_order(docs.drop_first());
        } else {
            assert(manifest_objects(docs).drop_first() =~= manifest_objects(docs.drop_first()));
        }
    }
}

/// An object keeps the namespace that it asks for.
pub proof fn own_namespace_is_kept(
    object: ManifestObjectView,
    own: Seq<char>,
    namespace: Seq<char>,
)
    requires
        object.namespace == Some(own),
        object.name is Some,
    ensures
        patch_target(object, Some(true), namespace) == Ok::<
            (Option<Seq<char>>, Seq<char>),
            ApplyErrorView,
        >((Some(own), object.name->0)),
{
}

/// Documents that hold nothing make no difference.
pub proof fn empty_documents_make_no_difference(docs: Seq<Yaml>, null: Yaml)
    requires
        untagged(null) is Null,
    ensures
        next_outcome(seq![null] + docs) == next_outcome(docs),
        skip_nulls(seq![null] + docs) == skip_nulls(docs),
{
    assert((seq![null] + docs).drop_first() =~= docs);
}

/// Group and version make up the API version again.
pub proof fn group_version_round_trip(api_version: Seq<char>)
    ensures
        api_version.contains('/') ==> group_version(api_version).0 + seq!['/'] + group_version(
            api_version,
        ).1 == api_version && !group_version(api_version).0.contains('/'),
        !api_version.contains('/') ==> group_version(api_version).1 == api_version,
{
    if api_version.contains('/') {
        api_version.index_of_first_ensures('/');
        let i = api_version.index_of_first('/')->0;
        let (group, version) = group_version(api_version);
        assert(group + seq!['/'] + version =~= api_version);
        assert forall|j: int| 0 <= j < group.len() implies group[j] != '/' by {
            assert(group[j] == api_version[j]);
        }
    }
}

} // verus!

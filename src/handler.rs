use crate::paths::{
    content_type_for, content_type_of, copy_of, extension, is_plain_component, joined,
    lemma_normalized_plain, lemma_segments_slash_free, normalize, requested, requested_path,
    resolve, resolved, segments, ContentType,
};
use crate::request::{request_path, request_path_of, SLASH};
use crate::response::{
    frame, not_found, not_found_response, response_bytes, server_error, server_error_response,
    Status,
};
use crate::ssi_processor::SSIProcessor;
use std::sync::Arc;
use vstd::prelude::*;
use vstd::string::StringSliceAdditionalSpecFns;
use vstd::utf8::encode_utf8;

verus! {

/// Root directory of static assets.
pub const STATIC_ROOT: &'static str = "static";

/// Root directory of templates.
pub const TEMPLATE_ROOT: &'static str = "templates";

/// Path prefix that marks a request for a static asset.
pub const STATIC_PREFIX: &'static str = "/static/";

pub open spec fn static_root() -> Seq<u8> {
    "static".spec_bytes()
}

pub open spec fn template_root() -> Seq<u8> {
    "templates".spec_bytes()
}

pub open spec fn static_prefix() -> Seq<u8> {
    "/static/".spec_bytes()
}

pub open spec fn is_root_path(p: Seq<u8>) -> bool {
    p == seq![SLASH]
}

pub open spec fn is_static_path(p: Seq<u8>) -> bool {
    !is_root_path(p) && static_prefix().is_prefix_of(p)
}

/// The part of a template request path that is looked up below the
/// template root: the path without its leading slash.
pub open spec fn template_rel(p: Seq<u8>) -> Seq<u8> {
    if p.len() > 0 && p[0] == SLASH {
        p.skip(1)
    } else {
        p
    }
}

/// How a request path is served.
#[derive(Clone, Debug, PartialEq, Eq)]
pub enum Route {
    /// The template document.
    RootTemplate,
    /// A file below the static root, by its path relative to that root.
    StaticAsset(Vec<u8>),
    /// A file below the template root, by its path relative to that root.
    TemplateFallback(Vec<u8>),
}

/// The route of request path `p`.
pub open spec fn route_matches(p: Seq<u8>, r: Route) -> bool {
    match r {
        Route::RootTemplate => is_root_path(p),
        Route::StaticAsset(rel) => is_static_path(p) && rel@ == p.skip(
            static_prefix().len() as int,
        ),
        Route::TemplateFallback(rel) => !is_root_path(p) && !is_static_path(p) && rel@
            == template_rel(p),
    }
}

/// A file that must be read before the response can be written.
#[derive(Clone, Debug, PartialEq, Eq)]
pub struct Fetch {
    /// Path of the file, below one of the two roots, normalized: what is read.
    pub path: Vec<u8>,
    /// The path as the request joined it to its root: what must exist
    /// before `path` is read.
    pub probe: Vec<u8>,
    /// Content type that the response declares if the read succeeds.
    pub content_type: ContentType,
}

/// What the connection does after its request has been read.
#[derive(Clone, Debug, PartialEq, Eq)]
pub enum Step {
    /// Close without a response.
    Close,
    /// Write these bytes and close.
    Respond(Vec<u8>),
    /// Read a file, then hand its outcome to `on_file`.
    Load(Fetch),
}

/// What reading a requested file came to.
#[derive(Clone, Debug, PartialEq, Eq)]
pub enum FileOutcome {
    /// No such file.
    Missing,
    /// The file exists but could not be read.
    Failed,
    /// The file's bytes.
    Loaded(Vec<u8>),
}

/// The model of a `Step`.
pub enum Plan {
    Close,
    Respond(Seq<u8>),
    Load(Seq<u8>, Seq<u8>, ContentType),
}

impl View for Step {
    type V = Plan;

    open spec fn view(&self) -> Plan {
        match self {
            Step::Close => Plan::Close,
            Step::Respond(b) => Plan::Respond(b@),
            Step::Load(f) => Plan::Load(f.path@, f.probe@, f.content_type),
        }
    }
}

/// What a file below `root` leads to. A template must be asked for by a
/// path that ends in `.html`; then, when the normalized join stays below the
/// root, the file is read once the requested path proves to exist; else
/// `404`.
pub open spec fn file_plan(root: Seq<u8>, rel: Seq<u8>, html_only: bool) -> Plan {
    if html_only && extension(rel) != Some("html".spec_bytes()) {
        Plan::Respond(not_found())
    } else {
        match resolved(root, rel) {
            Some(f) => Plan::Load(
                f,
                requested(root, rel),
                if html_only {
                    ContentType::Html
                } else {
                    content_type_for(extension(f))
                },
            ),
            None => Plan::Respond(not_found()),
        }
    }
}

/// What the handler does with the bytes `req` of one read, given the
/// template document `doc`.
pub open spec fn plan_of(req: Seq<u8>, doc: Seq<char>, processor: SSIProcessor) -> Plan {
    if req.len() == 0 {
        Plan::Close
    } else {
        let p = request_path_of(req);
        if is_root_path(p) {
            Plan::Respond(
                response_bytes(
                    Status::Success,
                    Some(ContentType::Html),
                    encode_utf8(processor.processed(doc)),
                ),
            )
        } else if is_static_path(p) {
            file_plan(static_root(), p.skip(static_prefix().len() as int), false)
        } else {
            file_plan(template_root(), template_rel(p), true)
        }
    }
}

/// The response once a requested file's read has come to `outcome`.
pub open spec fn file_response(ct: ContentType, outcome: FileOutcome) -> Seq<u8> {
    match outcome {
        FileOutcome::Missing => not_found(),
        FileOutcome::Failed => server_error(),
        FileOutcome::Loaded(body) => response_bytes(Status::Success, Some(ct), body@),
    }
}

fn starts_with(s: &[u8], t: &[u8]) -> (r: bool)
    ensures
        r == t@.is_prefix_of(s@),
{
    if t.len() > s.len() {
        return false;
    }
    let mut i: usize = 0;
    while i < t.len()
        invariant
            t@.len() <= s@.len(),
            i <= t@.len(),
            forall|j: int| 0 <= j < i ==> s@[j] == t@[j],
        decreases t@.len() - i,
    {
        if s[i] != t[i] {
            return false;
        }
        i = i + 1;
    }
    true
}

fn tail_from(s: &[u8], start: usize) -> (r: Vec<u8>)
    requires
        start <= s@.len(),
    ensures
        r@ == s@.skip(start as int),
{
    let mut out: Vec<u8> = Vec::new();
    let mut i: usize = start;
    while i < s.len()
        invariant
            start <= i <= s@.len(),
            out@ == s@.subrange(start as int, i as int),
        decreases s@.len() - i,
    {
        out.push(s[i]);
        i = i + 1;
        assert(out@ =~= s@.subrange(start as int, i as int));
    }
    out
}

/// Classifies a request path.
pub fn classify(path: &[u8]) -> (r: Route)
    ensures
        route_matches(path@, r),
{
    if path.len() == 1 && path[0] == SLASH {
        assert(path@ =~= seq![SLASH]);
        return Route::RootTemplate;
    }
    assert(!is_root_path(path@));
    let prefix = STATIC_PREFIX.as_bytes();
    if starts_with(path, prefix) {
        Route::StaticAsset(tail_from(path, prefix.len()))
    } else if path.len() > 0 && path[0] == SLASH {
        Route::TemplateFallback(tail_from(path, 1))
    } else {
        assert(path@.skip(0) =~= path@);
        Route::TemplateFallback(tail_from(path, 0))
    }
}

fn plan_file(root: &str, rel: &[u8], html_only: bool) -> (r: Step)
    ensures
        r@ == file_plan(root.spec_bytes(), rel@, html_only),
{
    if html_only && content_type_of(rel) != ContentType::Html {
        return Step::Respond(not_found_response());
    }
    match resolve(root, rel) {
        None => Step::Respond(not_found_response()),
        Some(f) => {
            let ct = if html_only {
                ContentType::Html
            } else {
                content_type_of(&f)
            };
            Step::Load(Fetch { path: f, probe: requested_path(root, rel), content_type: ct })
        },
    }
}

/// Decides what to do with the bytes of one read of a request: close when
/// nothing was read, answer the root path with the processed template,
/// and otherwise resolve the path below its root.
pub fn on_request(req: &[u8], template: &Arc<String>, processor: &SSIProcessor) -> (r: Step)
    ensures
        r@ == plan_of(req@, template@, *processor),
{
    if req.len() == 0 {
        return Step::Close;
    }
    let path = request_path(req);
    match classify(&path) {
        Route::RootTemplate => {
            let doc = processor.process(template);
            let body = copy_of(doc.as_str().as_bytes());
            Step::Respond(frame(Status::Success, Some(ContentType::Html), &body))
        },
        Route::StaticAsset(rel) => {
            assert(STATIC_ROOT.spec_bytes() == static_root());
            plan_file(STATIC_ROOT, &rel, false)
        },
        Route::TemplateFallback(rel) => plan_file(TEMPLATE_ROOT, &rel, true),
    }
}

/// Turns the outcome of reading a requested file into the response.
pub fn on_file(fetch: &Fetch, outcome: FileOutcome) -> (r: Vec<u8>)
    ensures
        r@ == file_response(fetch.content_type, outcome),
{
    match outcome {
        FileOutcome::Missing => not_found_response(),
        FileOutcome::Failed => server_error_response(),
        FileOutcome::Loaded(body) => frame(Status::Success, Some(fetch.content_type), &body),
    }
}

/// `f` names an entry below `root`: the root followed by plain components,
/// none of which is `.` or `..`.
pub open spec fn below(root: Seq<u8>, f: Seq<u8>) -> bool {
    exists|comps: Seq<Seq<u8>>|
        (forall|j: int| 0 <= j < comps.len() ==> is_plain_component(#[trigger] comps[j]))
            && f == joined(root, comps)
}

/// Whether request path `p` (other than the root path) leaves its root once
/// joined to it and normalized.
pub open spec fn leaves_root(p: Seq<u8>) -> bool {
    &&& !is_root_path(p)
    &&& if is_static_path(p) {
        resolved(static_root(), p.skip(static_prefix().len() as int)) is None
    } else {
        resolved(template_root(), template_rel(p)) is None
    }
}

proof fn lemma_resolved_below(root: Seq<u8>, rel: Seq<u8>)
    ensures
        resolved(root, rel) matches Some(f) ==> below(root, f),
{
    lemma_segments_slash_free(rel);
    lemma_normalized_plain(seq![root], segments(rel));
    if let Some(comps) = normalize(root, rel) {
        if comps.len() >= 1 && comps[0] == root {
            let rest = comps.skip(1);
            assert forall|j: int| 0 <= j < rest.len() implies is_plain_component(
                #[trigger] rest[j],
            ) by {
                assert(rest[j] == comps[j + 1]);
            }
        }
    }
}

/// Every file that a request leads the handler to read lies below the static
/// root or the template root, and a request whose path would leave its root
/// is answered `404 Not Found` without any file being probed or read.
pub proof fn lemma_reads_stay_below_roots(req: Seq<u8>, doc: Seq<char>, processor: SSIProcessor)
    ensures
        plan_of(req, doc, processor) matches Plan::Load(f, _, _) ==> below(static_root(), f)
            || below(template_root(), f),
        req.len() > 0 && leaves_root(request_path_of(req)) ==> plan_of(req, doc, processor)
            == Plan::Respond(not_found()),
{
    let p = request_path_of(req);
    lemma_resolved_below(static_root(), p.skip(static_prefix().len() as int));
    lemma_resolved_below(template_root(), template_rel(p));
}

/// The root path is always answered `200 OK`, as HTML, with the processed
/// template document, which is the document itself.
pub proof fn lemma_root_serves_template(req: Seq<u8>, doc: Seq<char>, processor: SSIProcessor)
    requires
        req.len() > 0,
        is_root_path(request_path_of(req)),
    ensures
        plan_of(req, doc, processor) == Plan::Respond(
            response_bytes(Status::Success, Some(ContentType::Html), encode_utf8(doc)),
        ),
{
}

/// Any two requests for the root path get byte-identical responses.
pub proof fn lemma_root_idempotent(
    first: Seq<u8>,
    second: Seq<u8>,
    doc: Seq<char>,
    processor: SSIProcessor,
)
    requires
        first.len() > 0,
        second.len() > 0,
        is_root_path(request_path_of(first)),
        is_root_path(request_path_of(second)),
    ensures
        plan_of(first, doc, processor) == plan_of(second, doc, processor),
{
}

/// A path that is neither the root path nor a static one, and whose last
/// segment does not carry the extension `html`, is answered
/// `404 Not Found` without the filesystem being consulted.
pub proof fn lemma_templates_need_html(req: Seq<u8>, doc: Seq<char>, processor: SSIProcessor)
    requires
        req.len() > 0,
        !is_root_path(request_path_of(req)),
        !is_static_path(request_path_of(req)),
        extension(template_rel(request_path_of(req))) != Some("html".spec_bytes()),
    ensures
        plan_of(req, doc, processor) == Plan::Respond(not_found()),
{
}

/// A static path that resolves below the static root is read once the
/// requested path exists, and then served `200 OK` with the content type of
/// its extension and the exact length of its bytes; when it does not exist
/// the answer is `404 Not Found`.
pub proof fn lemma_static_files_served(
    req: Seq<u8>,
    doc: Seq<char>,
    processor: SSIProcessor,
    body: Vec<u8>,
)
    requires
        req.len() > 0,
        is_static_path(request_path_of(req)),
        resolved(
            static_root(),
            request_path_of(req).skip(static_prefix().len() as int),
        ) is Some,
    ensures
        ({
            let rel = request_path_of(req).skip(static_prefix().len() as int);
            let f = resolved(static_root(), rel).unwrap();
            let ct = content_type_for(extension(f));
            &&& plan_of(req, doc, processor) == Plan::Load(f, requested(static_root(), rel), ct)
            &&& file_response(ct, FileOutcome::Loaded(body)) == response_bytes(
                Status::Success,
                Some(ct),
                body@,
            )
            &&& file_response(ct, FileOutcome::Missing) == not_found()
        }),
{
}

/// A template path that ends in `.html` and resolves below the template root
/// is read once the requested path exists, and then served `200 OK` as HTML.
pub proof fn lemma_html_templates_served(
    req: Seq<u8>,
    doc: Seq<char>,
    processor: SSIProcessor,
    body: Vec<u8>,
)
    requires
        req.len() > 0,
        !is_root_path(request_path_of(req)),
        !is_static_path(request_path_of(req)),
        extension(template_rel(request_path_of(req))) == Some("html".spec_bytes()),
        resolved(template_root(), template_rel(request_path_of(req))) is Some,
    ensures
        ({
            let rel = template_rel(request_path_of(req));
            let f = resolved(template_root(), rel).unwrap();
            &&& plan_of(req, doc, processor) == Plan::Load(
                f,
                requested(template_root(), rel),
                ContentType::Html,
            )
            &&& file_response(ContentType::Html, FileOutcome::Loaded(body)) == response_bytes(
                Status::Success,
                Some(ContentType::Html),
                body@,
            )
        }),
{
}

} // verus!

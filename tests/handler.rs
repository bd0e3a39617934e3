use ssi_server::handler::{classify, on_file, on_request, FileOutcome, Fetch, Route, Step};
use ssi_server::paths::{content_type_of, normalize_path, requested_path, resolve, ContentType};
use ssi_server::request::request_path;
use ssi_server::response::{frame, not_found_response, server_error_response, Status};
use ssi_server::ssi_processor::SSIProcessor;
use std::sync::Arc;

fn template() -> Arc<String> {
    Arc::new(String::from("<html><body>Hello</body></html>"))
}

fn respond_bytes(step: Step) -> Vec<u8> {
    match step {
        Step::Respond(b) => b,
        other => panic!("expected a response, got {:?}", other),
    }
}

fn load(step: Step) -> Fetch {
    match step {
        Step::Load(f) => f,
        other => panic!("expected a file read, got {:?}", other),
    }
}

const NOT_FOUND: &[u8] = b"HTTP/1.1 404 Not Found\r\nContent-Length: 9\r\n\r\nNot Found";

#[test]
fn request_path_takes_second_token_of_first_line() {
    assert_eq!(request_path(b"GET /index.html HTTP/1.1\r\nHost: x\r\n\r\n"), b"/index.html".to_vec());
    assert_eq!(request_path(b"  GET \t /a   HTTP/1.1"), b"/a".to_vec());
    assert_eq!(request_path(b"GET /x"), b"/x".to_vec());
}

#[test]
fn request_path_defaults_to_root() {
    assert_eq!(request_path(b""), b"/".to_vec());
    assert_eq!(request_path(b"GET"), b"/".to_vec());
    assert_eq!(request_path(b"GET   \r\n/b HTTP/1.1"), b"/".to_vec());
}

#[test]
fn classify_routes() {
    assert_eq!(classify(b"/"), Route::RootTemplate);
    assert_eq!(classify(b"/static/style.css"), Route::StaticAsset(b"style.css".to_vec()));
    assert_eq!(classify(b"/about.html"), Route::TemplateFallback(b"about.html".to_vec()));
    assert_eq!(classify(b"/static"), Route::TemplateFallback(b"static".to_vec()));
    assert_eq!(classify(b"page.html"), Route::TemplateFallback(b"page.html".to_vec()));
}

#[test]
fn normalize_applies_dots() {
    let root = b"static".to_vec();
    assert_eq!(
        normalize_path(b"static", b"a/./b//c"),
        Some(vec![root.clone(), b"a".to_vec(), b"b".to_vec(), b"c".to_vec()])
    );
    assert_eq!(normalize_path(b"static", b"a/../b.css"), Some(vec![root.clone(), b"b.css".to_vec()]));
    assert_eq!(normalize_path(b"static", b""), Some(vec![root.clone()]));
    assert_eq!(normalize_path(b"static", b"../x"), Some(vec![b"x".to_vec()]));
    assert_eq!(normalize_path(b"static", b"../../x"), None);
    assert_eq!(normalize_path(b"static", b"/etc/passwd"), None);
}

#[test]
fn resolve_joins_below_root() {
    assert_eq!(resolve("static", b"css/site.css"), Some(b"static/css/site.css".to_vec()));
    assert_eq!(resolve("static", b"a/../b.css"), Some(b"static/b.css".to_vec()));
    assert_eq!(resolve("templates", b""), Some(b"templates".to_vec()));
    assert_eq!(resolve("static", b"../../etc/passwd"), None);
    assert_eq!(resolve("static", b"../static/style.css"), Some(b"static/style.css".to_vec()));
    assert_eq!(resolve("static", b"../templates/index.html"), None);
    assert_eq!(resolve("static", b".."), None);
    assert_eq!(resolve("static", b"style.css/"), Some(b"static/style.css".to_vec()));
}

#[test]
fn requested_path_keeps_request_text() {
    assert_eq!(requested_path("static", b"style.css/"), b"static/style.css/".to_vec());
    assert_eq!(requested_path("templates", b"a/../b.html"), b"templates/a/../b.html".to_vec());
    assert_eq!(requested_path("static", b""), b"static/".to_vec());
}

#[test]
fn content_type_table() {
    assert_eq!(content_type_of(b"static/style.css"), ContentType::Css);
    assert_eq!(content_type_of(b"static/app.js"), ContentType::Javascript);
    assert_eq!(content_type_of(b"static/logo.png"), ContentType::Png);
    assert_eq!(content_type_of(b"static/unknown.bin"), ContentType::OctetStream);
    assert_eq!(content_type_of(b"static/photo.jpg"), ContentType::Jpeg);
    assert_eq!(content_type_of(b"static/photo.jpeg"), ContentType::Jpeg);
    assert_eq!(content_type_of(b"templates/about.html"), ContentType::Html);
    assert_eq!(content_type_of(b"static/archive.tar.css"), ContentType::Css);
    assert_eq!(content_type_of(b"static/.css"), ContentType::OctetStream);
    assert_eq!(content_type_of(b"static/noext"), ContentType::OctetStream);
    assert_eq!(content_type_of(b"static.d/file"), ContentType::OctetStream);
    assert_eq!(content_type_of(b"static/file."), ContentType::OctetStream);
}

#[test]
fn mime_texts() {
    assert_eq!(ContentType::Html.mime(), "text/html");
    assert_eq!(ContentType::Css.mime(), "text/css");
    assert_eq!(ContentType::Javascript.mime(), "application/javascript");
    assert_eq!(ContentType::Png.mime(), "image/png");
    assert_eq!(ContentType::Jpeg.mime(), "image/jpeg");
    assert_eq!(ContentType::OctetStream.mime(), "application/octet-stream");
}

#[test]
fn frame_exact_bytes() {
    assert_eq!(
        frame(Status::Success, Some(ContentType::Css), b"body{}"),
        b"HTTP/1.1 200 OK\r\nContent-Type: text/css\r\nContent-Length: 6\r\n\r\nbody{}".to_vec()
    );
    assert_eq!(
        frame(Status::Success, None, b""),
        b"HTTP/1.1 200 OK\r\nContent-Length: 0\r\n\r\n".to_vec()
    );
    let big = vec![7u8; 1234];
    let framed = frame(Status::Success, Some(ContentType::OctetStream), &big);
    let head = b"HTTP/1.1 200 OK\r\nContent-Type: application/octet-stream\r\nContent-Length: 1234\r\n\r\n";
    assert_eq!(&framed[..head.len()], &head[..]);
    assert_eq!(framed.len(), head.len() + 1234);
}

#[test]
fn error_responses() {
    assert_eq!(not_found_response(), NOT_FOUND.to_vec());
    assert_eq!(
        server_error_response(),
        b"HTTP/1.1 500 Internal Server Error\r\nContent-Length: 21\r\n\r\nInternal Server Error".to_vec()
    );
}

#[test]
fn processor_is_identity() {
    let p = SSIProcessor::new();
    let t = template();
    assert_eq!(p.process(&t), *t);
    assert_eq!(p.process(&Arc::new(String::new())), String::new());
}

#[test]
fn empty_read_closes() {
    assert_eq!(on_request(b"", &template(), &SSIProcessor::new()), Step::Close);
}

#[test]
fn root_serves_template() {
    let t = template();
    let got = respond_bytes(on_request(b"GET / HTTP/1.1\r\n\r\n", &t, &SSIProcessor::new()));
    let mut want = b"HTTP/1.1 200 OK\r\nContent-Type: text/html\r\nContent-Length: 31\r\n\r\n".to_vec();
    want.extend_from_slice(t.as_bytes());
    assert_eq!(got, want);
}

#[test]
fn root_counts_utf8_bytes() {
    let t = Arc::new(String::from("é"));
    let got = respond_bytes(on_request(b"GET / HTTP/1.1", &t, &SSIProcessor::new()));
    assert_eq!(got, "HTTP/1.1 200 OK\r\nContent-Type: text/html\r\nContent-Length: 2\r\n\r\né".as_bytes().to_vec());
}

#[test]
fn missing_path_token_serves_root() {
    let t = template();
    let p = SSIProcessor::new();
    assert_eq!(on_request(b"GET", &t, &p), on_request(b"GET / HTTP/1.1", &t, &p));
}

#[test]
fn root_is_idempotent() {
    let t = template();
    let p = SSIProcessor::new();
    let a = on_request(b"GET / HTTP/1.1\r\n\r\n", &t, &p);
    let b = on_request(b"GET / HTTP/1.0\r\nHost: a\r\n\r\n", &t, &p);
    let c = on_request(b"GET / HTTP/1.1\r\n\r\n", &t, &p);
    assert_eq!(a, b);
    assert_eq!(a, c);
}

#[test]
fn static_file_is_loaded() {
    let step = on_request(b"GET /static/style.css HTTP/1.1", &template(), &SSIProcessor::new());
    let f = load(step);
    assert_eq!(f.path, b"static/style.css".to_vec());
    assert_eq!(f.probe, b"static/style.css".to_vec());
    assert_eq!(f.content_type, ContentType::Css);
    let resp = on_file(&f, FileOutcome::Loaded(b"a{color:red}".to_vec()));
    assert_eq!(
        resp,
        b"HTTP/1.1 200 OK\r\nContent-Type: text/css\r\nContent-Length: 12\r\n\r\na{color:red}".to_vec()
    );
}

#[test]
fn static_content_types_by_extension() {
    let t = template();
    let p = SSIProcessor::new();
    let cases: [(&[u8], ContentType); 4] = [
        (b"GET /static/style.css HTTP/1.1", ContentType::Css),
        (b"GET /static/app.js HTTP/1.1", ContentType::Javascript),
        (b"GET /static/logo.png HTTP/1.1", ContentType::Png),
        (b"GET /static/unknown.bin HTTP/1.1", ContentType::OctetStream),
    ];
    for (req, ct) in cases {
        assert_eq!(load(on_request(req, &t, &p)).content_type, ct);
    }
}

#[test]
fn static_missing_is_not_found() {
    let f = load(on_request(b"GET /static/nope.css HTTP/1.1", &template(), &SSIProcessor::new()));
    assert_eq!(on_file(&f, FileOutcome::Missing), NOT_FOUND.to_vec());
}

#[test]
fn unreadable_file_is_server_error() {
    let f = load(on_request(b"GET /static/locked.css HTTP/1.1", &template(), &SSIProcessor::new()));
    assert_eq!(on_file(&f, FileOutcome::Failed), server_error_response());
}

#[test]
fn traversal_is_not_found() {
    let t = template();
    let p = SSIProcessor::new();
    for req in [
        &b"GET /static/../../etc/passwd HTTP/1.1"[..],
        &b"GET /static/../templates/index.html HTTP/1.1"[..],
        &b"GET /../etc/passwd.html HTTP/1.1"[..],
        &b"GET //etc/passwd.html HTTP/1.1"[..],
        &b"GET /static//etc/passwd HTTP/1.1"[..],
        &b"GET /a/../../secret.html HTTP/1.1"[..],
    ] {
        assert_eq!(respond_bytes(on_request(req, &t, &p)), NOT_FOUND.to_vec());
    }
}

#[test]
fn non_html_template_path_is_not_found() {
    let t = template();
    let p = SSIProcessor::new();
    assert_eq!(respond_bytes(on_request(b"GET /foo.txt HTTP/1.1", &t, &p)), NOT_FOUND.to_vec());
    assert_eq!(respond_bytes(on_request(b"GET /about HTTP/1.1", &t, &p)), NOT_FOUND.to_vec());
    assert_eq!(respond_bytes(on_request(b"GET /about.html/ HTTP/1.1", &t, &p)), NOT_FOUND.to_vec());
    assert_eq!(respond_bytes(on_request(b"GET /x.html/b/.. HTTP/1.1", &t, &p)), NOT_FOUND.to_vec());
    assert_eq!(respond_bytes(on_request(b"GET /x.html/. HTTP/1.1", &t, &p)), NOT_FOUND.to_vec());
}

#[test]
fn static_path_may_return_to_its_root() {
    let f = load(on_request(b"GET /static/../static/style.css HTTP/1.1", &template(), &SSIProcessor::new()));
    assert_eq!(f.path, b"static/style.css".to_vec());
    assert_eq!(f.probe, b"static/../static/style.css".to_vec());
    assert_eq!(f.content_type, ContentType::Css);
}

#[test]
fn trailing_slash_is_probed_as_requested() {
    let f = load(on_request(b"GET /static/style.css/ HTTP/1.1", &template(), &SSIProcessor::new()));
    assert_eq!(f.path, b"static/style.css".to_vec());
    assert_eq!(f.probe, b"static/style.css/".to_vec());
    assert_eq!(on_file(&f, FileOutcome::Missing), NOT_FOUND.to_vec());
}

#[test]
fn html_template_path_is_loaded() {
    let f = load(on_request(b"GET /about.html HTTP/1.1", &template(), &SSIProcessor::new()));
    assert_eq!(f.path, b"templates/about.html".to_vec());
    assert_eq!(f.probe, b"templates/about.html".to_vec());
    assert_eq!(f.content_type, ContentType::Html);
    assert_eq!(
        on_file(&f, FileOutcome::Loaded(b"<p>about</p>".to_vec())),
        b"HTTP/1.1 200 OK\r\nContent-Type: text/html\r\nContent-Length: 12\r\n\r\n<p>about</p>".to_vec()
    );
}

#[test]
fn interleaved_requests_keep_their_own_files() {
    let t = template();
    let p = SSIProcessor::new();
    let names = ["a.css", "b.js", "c.png", "d.bin"];
    let fetches: Vec<Fetch> = names
        .iter()
        .map(|n| load(on_request(format!("GET /static/{} HTTP/1.1", n).as_bytes(), &t, &p)))
        .collect();
    let mut responses = Vec::new();
    for (i, f) in fetches.iter().enumerate().rev() {
        responses.push((i, on_file(f, FileOutcome::Loaded(names[i].as_bytes().to_vec()))));
    }
    for (i, resp) in responses {
        let ct = content_type_of(format!("static/{}", names[i]).as_bytes());
        assert_eq!(resp, frame(Status::Success, Some(ct), names[i].as_bytes()));
        assert!(resp.ends_with(names[i].as_bytes()));
    }
}

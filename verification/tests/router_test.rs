use http_server_rs::http::request::{parse_http_request, HttpMethod};
use http_server_rs::http::response::HttpStatusCode;
use http_server_rs::http::{HttpRequest, HttpResponse, Router};
use http_server_rs::server::serve::serve;

fn text_handler(body: &'static str) -> impl Fn(&HttpRequest) -> HttpResponse + Send + Sync {
    move |_: &HttpRequest| {
        let mut res = HttpResponse::new(HttpStatusCode::OK);
        res.set_header("Content-Type", "text/plain");
        res.set_content(body);
        res
    }
}

fn request(method: HttpMethod, path: &str) -> HttpRequest {
    HttpRequest::new(method, path.to_string())
}

fn assert_not_found(res: &HttpResponse) {
    assert_eq!(res.status, HttpStatusCode::NotFound);
    assert_eq!(
        res.headers,
        vec![("Content-Type".to_string(), "text/plain".to_string())]
    );
    assert_eq!(res.body, "404 Not Found\n");
}

#[test]
fn registered_handler_answers() {
    let mut router = Router::new();
    router.register("/", HttpMethod::GET, text_handler("root"));
    let req = parse_http_request(b"GET / HTTP/1.1").unwrap();
    let res = router.route(&req);
    assert_eq!(res.status, HttpStatusCode::OK);
    assert_eq!(res.body, "root");
    assert_eq!(
        res.headers,
        vec![("Content-Type".to_string(), "text/plain".to_string())]
    );
}

#[test]
fn missing_route_is_not_found_for_any_method() {
    let mut router = Router::new();
    router.register("/", HttpMethod::GET, text_handler("root"));
    for method in [
        HttpMethod::GET,
        HttpMethod::HEAD,
        HttpMethod::POST,
        HttpMethod::UNKNOWN,
    ] {
        assert_not_found(&router.route(&request(method, "/missing")));
    }
    assert_not_found(&Router::new().route(&request(HttpMethod::GET, "/")));
}

#[test]
fn routes_are_keyed_by_path_and_method() {
    let mut router = Router::new();
    router.register("/a", HttpMethod::GET, text_handler("get a"));
    router.register("/a", HttpMethod::POST, text_handler("post a"));
    router.register("/b", HttpMethod::GET, text_handler("get b"));
    assert_eq!(router.route(&request(HttpMethod::GET, "/a")).body, "get a");
    assert_eq!(router.route(&request(HttpMethod::POST, "/a")).body, "post a");
    assert_eq!(router.route(&request(HttpMethod::GET, "/b")).body, "get b");
    assert_not_found(&router.route(&request(HttpMethod::HEAD, "/a")));
    assert_not_found(&router.route(&request(HttpMethod::POST, "/b")));
    assert_not_found(&router.route(&request(HttpMethod::GET, "/a/")));
    assert_not_found(&router.route(&request(HttpMethod::GET, "/A")));
}

#[test]
fn registering_again_replaces_the_handler() {
    let mut router = Router::new();
    router.register("/a", HttpMethod::GET, text_handler("first"));
    router.register("/b", HttpMethod::GET, text_handler("other"));
    router.register("/a", HttpMethod::GET, text_handler("second"));
    assert_eq!(router.route(&request(HttpMethod::GET, "/a")).body, "second");
    assert_eq!(router.route(&request(HttpMethod::GET, "/b")).body, "other");
}

#[test]
fn handler_sees_the_request() {
    let mut router = Router::new();
    router.register("/echo", HttpMethod::UNKNOWN, |req: &HttpRequest| {
        let mut res = HttpResponse::new(HttpStatusCode::BadRequest);
        res.set_content(&format!("{:?} {}", req.method, req.path));
        res
    });
    let res = router.route(&request(HttpMethod::UNKNOWN, "/echo"));
    assert_eq!(res.status, HttpStatusCode::BadRequest);
    assert_eq!(res.body, "UNKNOWN /echo");
}

#[test]
fn serve_answers_the_bytes_of_one_read() {
    let mut router = Router::new();
    router.register("/", HttpMethod::GET, text_handler("Hello, world\n"));
    assert_eq!(
        serve(&router, b"GET / HTTP/1.1\r\nHost: x\r\n\r\n"),
        Some(
            b"HTTP/1.1 200 OK\r\nContent-Type: text/plain\r\nContent-Length: 13\r\n\r\nHello, world\n"
                .to_vec()
        )
    );
    assert_eq!(
        serve(&router, b"GET /missing HTTP/1.1\r\n\r\n"),
        Some(
            b"HTTP/1.1 404 Not Found\r\nContent-Type: text/plain\r\nContent-Length: 14\r\n\r\n404 Not Found\n"
                .to_vec()
        )
    );
    assert_eq!(serve(&router, b"GET"), None);
    assert_eq!(serve(&router, b"GET / \xff"), None);
    assert_eq!(serve(&router, b""), None);
}

fn shared<T: Send + Sync + 'static>(_: &T) {}

#[test]
fn router_can_be_shared_between_threads() {
    let mut router = Router::new();
    router.register("/", HttpMethod::GET, text_handler("root"));
    shared(&router);
    let router = std::sync::Arc::new(router);
    let mut bodies = Vec::new();
    for _ in 0..3 {
        let router = router.clone();
        bodies.push(router.route(&request(HttpMethod::GET, "/")).body);
    }
    assert_eq!(bodies, vec!["root", "root", "root"]);
}

use shiplift::auth::RegistryAuth;
use shiplift::errors::Error;
use shiplift::images::{parse_push_response, Docker, Images};
use shiplift::options::{
    BuildOptions, DeleteOptions, ImageFilter, ImageListOptions, PruneOptions, PullOptions,
    TagOptions,
};
use shiplift::transport::Method;

/// Test registry auth with token
#[test]
fn registry_auth_token() {
    let options = RegistryAuth::token("abc");
    assert_eq!(
        base64::encode(r#"{"identitytoken":"abc"}"#),
        options.serialize()
    );
}

/// Test registry auth with username and password
#[test]
fn registry_auth_password_simple() {
    let options = RegistryAuth::builder()
        .username("user_abc")
        .password("password_abc")
        .build();
    assert_eq!(
        base64::encode(r#"{"username":"user_abc","password":"password_abc"}"#),
        options.serialize()
    );
}

/// Test registry auth with all fields
#[test]
fn registry_auth_password_all() {
    let options = RegistryAuth::builder()
        .username("user_abc")
        .password("password_abc")
        .email("email_abc")
        .server_address("https://example.org")
        .build();
    assert_eq!(
        base64::encode(
            r#"{"username":"user_abc","password":"password_abc","email":"email_abc","serveraddress":"https://example.org"}"#
        ),
        options.serialize()
    );
}

/// The auth JSON escapes exactly as its serialized form demands:
/// short escapes for the named control characters, `\u00xx` for the
/// rest.
#[test]
fn registry_auth_escaping() {
    let auth = RegistryAuth::token("a\"b\\c\nd\u{1}");
    let json = auth.to_json();
    let expected =
        serde_json::to_string(&String::from("a\"b\\c\nd\u{1}")).unwrap();
    assert_eq!(
        String::from_utf8(json).unwrap(),
        format!("{{\"identitytoken\":{}}}", expected)
    );
}

/// Options serialize as urlencoded pairs in insertion order.
#[test]
fn tag_options_serialize() {
    let opts = TagOptions::builder().repo("my/repo").tag("v1").build();
    assert_eq!(opts.serialize().as_deref(), Some("repo=my%2Frepo&tag=v1"));
    let empty = TagOptions::builder().build();
    assert_eq!(empty.serialize(), None);
}

/// The pull builder starts at tag=latest and overwrites in place.
#[test]
fn pull_options_serialize() {
    let opts = PullOptions::builder().image("busybox").build();
    assert_eq!(
        opts.serialize().as_deref(),
        Some("tag=latest&fromImage=busybox")
    );
    let opts2 = PullOptions::builder().image("busybox").tag("1.36").build();
    assert_eq!(
        opts2.serialize().as_deref(),
        Some("tag=1.36&fromImage=busybox")
    );
}

/// Numbers and booleans render exactly into build parameters.
#[test]
fn build_options_serialize() {
    let opts = BuildOptions::builder("./ctx")
        .dockerfile("Dockerfile.dev")
        .tag("demo:1")
        .nocache(true)
        .rm(false)
        .memory(1048576)
        .cpu_shares(2)
        .build();
    assert_eq!(
        opts.serialize().as_deref(),
        Some("dockerfile=Dockerfile.dev&t=demo%3A1&nocache=true&rm=false&memory=1048576&cpushares=2")
    );
    assert_eq!(opts.path(), "./ctx");
    assert!(!opts.skip_gzip());
}

/// Delete options accumulate by value.
#[test]
fn delete_options_serialize() {
    let opts = DeleteOptions::builder().force().noprune().build();
    assert_eq!(opts.serialize().as_deref(), Some("force=true&noprune=true"));
}

/// The image-list filter map is JSON-encoded under one parameter.
#[test]
fn list_options_filter() {
    let opts = ImageListOptions::builder()
        .filter(vec![ImageFilter::Dangling])
        .build();
    assert_eq!(
        opts.serialize().as_deref(),
        Some("filters=%7B%22dangling%22%3A%5B%22true%22%5D%7D")
    );
    let opts2 = ImageListOptions::builder()
        .filter(vec![ImageFilter::Label("a".to_string(), "b".to_string())])
        .build();
    assert_eq!(
        opts2.serialize().as_deref(),
        Some("filters=%7B%22label%22%3A%5B%22a%3Db%22%5D%7D")
    );
}

/// Prune filters keep insertion order and accumulate labels.
#[test]
fn prune_options_serialize() {
    let opts = PruneOptions::builder()
        .dangling(true)
        .add_label("k=v".to_string())
        .add_label("other".to_string())
        .build();
    let q = opts.serialize().unwrap().unwrap();
    let expected_json = r#"{"dangling":["true"],"label":["k=v","other"]}"#;
    let expected = url::form_urlencoded::Serializer::new(String::new())
        .append_pair("filters", expected_json)
        .finish();
    assert_eq!(q, expected);

    let empty = PruneOptions::builder().build();
    assert_eq!(empty.serialize(), Ok(None));
}

/// Request plans carry the whole path, query included.
#[test]
fn request_plans() {
    let docker = Docker::new();
    let images = Images::new(&docker);
    let image = images.get("busybox");

    assert_eq!(image.inspect_request().path, "/images/busybox/json");
    assert_eq!(image.history_request().path, "/images/busybox/history");
    assert_eq!(image.delete_request().path, "/images/busybox");
    assert_eq!(image.export_request().path, "/images/busybox/get");

    let pull = images.pull_request(&PullOptions::builder().image("busybox").build());
    assert_eq!(pull.method, Method::Post);
    assert_eq!(pull.path, "/images/create?tag=latest&fromImage=busybox");
    assert!(pull.headers.is_empty());

    let mut with_auth = PullOptions::builder();
    with_auth.image("busybox").auth(RegistryAuth::token("abc"));
    let pull2 = images.pull_request(&with_auth.build());
    assert_eq!(pull2.headers.len(), 1);
    assert_eq!(pull2.headers[0].0, "X-Registry-Auth");
    assert_eq!(
        pull2.headers[0].1,
        base64::encode(r#"{"identitytoken":"abc"}"#)
    );

    let search = images.search_request("busy box");
    assert_eq!(search.path, "/images/search?term=busy+box");

    let export = images.export_request(&vec!["a:1".to_string(), "b:2".to_string()]);
    assert_eq!(export.path, "/images/get?names=a%3A1&names=b%3A2");
}

/// A push response with an errorDetail line surfaces that line.
#[test]
fn push_response_error_line() {
    let ok = parse_push_response("{\"status\":\"Pushed\"}\r\n{\"status\":\"Done\"}");
    assert_eq!(ok, Ok(()));

    let body = "{\"status\":\"Pushing\"}\r\n{\"errorDetail\":{\"message\":\"denied\"}}\r\n{\"status\":\"x\"}";
    match parse_push_response(body) {
        Err(Error::InvalidResponse(line)) => {
            assert_eq!(line, "{\"errorDetail\":{\"message\":\"denied\"}}");
        }
        other => panic!("expected the error line, got {:?}", other),
    }
}

use killer::http::{accept, bearer, classify_status, endpoint_url, Endpoint, HttpOutcome, StatusClass};
use killer::image::{
    conclude_upload, resolve_asset, strip_root, unreadable, ImageAuthor, ImagePost, ImageReply,
    ImageRequest, UploadCause, UploadFailure,
};
use killer::rewriter::parse_substitutions;
use killer::submit::{conclude_submission, SubmissionResult};

fn response(status: u16, body: Option<&str>) -> HttpOutcome {
    HttpOutcome::Response { status, body: body.map(|b| b.to_string()) }
}

fn failure(owner: &str, cause: UploadCause) -> UploadFailure {
    UploadFailure { owner: owner.to_string(), cause }
}

#[test]
fn status_families() {
    assert_eq!(classify_status(200), StatusClass::Success);
    assert_eq!(classify_status(201), StatusClass::Success);
    assert_eq!(classify_status(299), StatusClass::Success);
    assert_eq!(classify_status(300), StatusClass::Other);
    assert_eq!(classify_status(199), StatusClass::Other);
    assert_eq!(classify_status(399), StatusClass::Other);
    assert_eq!(classify_status(400), StatusClass::ClientError);
    assert_eq!(classify_status(404), StatusClass::ClientError);
    assert_eq!(classify_status(499), StatusClass::ClientError);
    assert_eq!(classify_status(500), StatusClass::ServerError);
    assert_eq!(classify_status(599), StatusClass::ServerError);
    assert_eq!(classify_status(600), StatusClass::Other);
    assert_eq!(classify_status(0), StatusClass::Other);
    assert_eq!(classify_status(u16::MAX), StatusClass::Other);
}

#[test]
fn endpoints_and_headers() {
    assert_eq!(endpoint_url("https://api.example", Endpoint::Authors), "https://api.example/authors");
    assert_eq!(endpoint_url("https://api.example", Endpoint::Tags), "https://api.example/tags");
    assert_eq!(endpoint_url("https://api.example", Endpoint::Posts), "https://api.example/posts");
    assert_eq!(
        endpoint_url("https://api.example", Endpoint::AuthorImage),
        "https://api.example/authors/image"
    );
    assert_eq!(
        endpoint_url("https://api.example", Endpoint::PostImage),
        "https://api.example/posts/image"
    );
    assert_eq!(endpoint_url("https://api.example", Endpoint::Image), "https://api.example/image");
    assert_eq!(endpoint_url("", Endpoint::Healthcheck), "/healthcheck");
    assert_eq!(bearer("SECRET"), "Bearer SECRET");
    assert_eq!(bearer(""), "Bearer ");
    assert_eq!(accept(), "application/json");
}

#[test]
fn payload_holds_path_and_encoded_content() {
    let request = ImageRequest::new(
        "/var/www/wordpress/wp-content/uploads/2019/01/a.jpg",
        "/var/www/wordpress",
        b"hello",
    );
    assert_eq!(
        request,
        ImageRequest {
            path_image: "/wp-content/uploads/2019/01/a.jpg".to_string(),
            base64: "aGVsbG8=".to_string(),
        }
    );
    let author = ImageAuthor::new("17", "/var/www/wordpress/a.png", "/var/www/wordpress", &[]);
    assert_eq!(
        author,
        ImageAuthor {
            author_id: "17".to_string(),
            path_image: "/a.png".to_string(),
            base64: String::new(),
        }
    );
    let post = ImagePost::new("9", "/elsewhere/a.png", "/var/www/wordpress", &[0xff, 0x00, 0x10]);
    assert_eq!(
        post,
        ImagePost {
            post_id: "9".to_string(),
            path_image: "/elsewhere/a.png".to_string(),
            base64: "/wAQ".to_string(),
        }
    );
    assert_eq!(strip_root("/r/a/r/b", "/r"), "/a/b");
    assert_eq!(strip_root("/r/a", ""), "/r/a");
}

#[test]
fn asset_resolves_to_a_file() {
    let subs = parse_substitutions("https://mirror.example|https://pstu.org.br");
    assert_eq!(
        resolve_asset(
            "17",
            "https://mirror.example/wp-content/uploads/2019/01/a.jpg",
            "/var/www/wordpress",
            &subs
        ),
        Ok("/var/www/wordpress/wp-content/uploads/2019/01/a.jpg".to_string())
    );
    assert_eq!(
        resolve_asset("17", "", "/var/www/wordpress", &subs),
        Err(failure("17", UploadCause::Unresolved))
    );
    assert_eq!(
        resolve_asset("17", "2019/01/a.jpg", "/var/www/wordpress", &subs),
        Err(failure("17", UploadCause::Unresolved))
    );
    assert_eq!(unreadable("17"), failure("17", UploadCause::Unreadable));
}

#[test]
fn upload_outcomes() {
    assert_eq!(
        conclude_upload("17", response(200, Some("/content/images/a.jpg"))),
        Ok(ImageReply { image: "/content/images/a.jpg".to_string() })
    );
    assert_eq!(
        conclude_upload("17", response(201, Some(""))),
        Ok(ImageReply { image: String::new() })
    );
    assert_eq!(
        conclude_upload("17", response(200, None)),
        Err(failure("17", UploadCause::MalformedReply))
    );
    assert_eq!(
        conclude_upload("17", response(404, Some("x"))),
        Err(failure("17", UploadCause::ClientRejected(404)))
    );
    assert_eq!(
        conclude_upload("17", response(503, None)),
        Err(failure("17", UploadCause::ServerFailed(503)))
    );
    assert_eq!(
        conclude_upload("17", response(302, Some("x"))),
        Err(failure("17", UploadCause::Unmapped(302)))
    );
    assert_eq!(
        conclude_upload("17", HttpOutcome::Transport),
        Err(failure("17", UploadCause::Transport))
    );
}

#[test]
fn failures_are_described() {
    assert_eq!(failure("17", UploadCause::Unresolved).describe(), "Falha ao enviar imagem: 17");
    assert_eq!(failure("17", UploadCause::Unreadable).describe(), "Falha ao enviar imagem: 17");
    assert_eq!(failure("17", UploadCause::Transport).describe(), "Falha ao enviar imagem: 17");
    assert_eq!(failure("", UploadCause::MalformedReply).describe(), "Falha ao enviar imagem: ");
    assert_eq!(
        failure("17", UploadCause::ClientRejected(404)).describe(),
        "Falha ao enviar imagem: 17 - Status: 404"
    );
    assert_eq!(
        failure("post 3", UploadCause::ServerFailed(500)).describe(),
        "Falha ao enviar imagem: post 3 - Status: 500"
    );
    assert_eq!(
        failure("17", UploadCause::Unmapped(0)).describe(),
        "Falha ao enviar imagem: 17 - Status: 0"
    );
}

#[test]
fn submission_outcomes() {
    assert_eq!(
        conclude_submission(response(200, Some("abc"))),
        SubmissionResult::Success("abc".to_string())
    );
    assert_eq!(conclude_submission(response(204, None)), SubmissionResult::UnmappedResponse);
    assert_eq!(conclude_submission(response(422, Some("x"))), SubmissionResult::ClientRejected);
    assert_eq!(conclude_submission(response(500, None)), SubmissionResult::ServerFailed);
    assert_eq!(conclude_submission(response(301, None)), SubmissionResult::UnmappedResponse);
    assert_eq!(conclude_submission(HttpOutcome::Transport), SubmissionResult::TransportFailed);
}

#[test]
fn submission_results_in_words() {
    assert!(SubmissionResult::Success("x".to_string()).is_success());
    assert!(!SubmissionResult::ClientRejected.is_success());
    assert_eq!(SubmissionResult::Success("x".to_string()).error_text(), None);
    assert_eq!(SubmissionResult::ClientRejected.error_text(), Some("Fail to env".to_string()));
    assert_eq!(SubmissionResult::ServerFailed.error_text(), Some("Fail to env".to_string()));
    assert_eq!(SubmissionResult::TransportFailed.error_text(), Some("error request".to_string()));
    assert_eq!(
        SubmissionResult::UnmappedResponse.error_text(),
        Some("request not mapped".to_string())
    );
}

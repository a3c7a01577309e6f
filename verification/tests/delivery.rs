use see_slug::http::{classify, ContentType, Delivery};
use see_slug::request::Request;
use see_slug::respond::{build_content_head, build_partial_head};
use see_slug::status::Status;
use see_slug::video::{plan_video, VideoPlan, VIDEO_BUFFER_SIZE};

fn request_for(path: &str) -> Request {
    Request { path: String::from(path), query: Vec::new(), range_start: None }
}

#[test]
fn status_strings() {
    assert_eq!(Status::Okay.to_str(), "200 Ok");
    assert_eq!(Status::BadRequest.to_str(), "400 Bad Request");
    assert_eq!(Status::NotFound.to_str(), "404 Not Found");
    assert_eq!(Status::RangeNotSatisfiable.to_str(), "416 Range Not Satisfiable");
    assert_eq!(Status::InternalServerError.to_str(), "500 Internal Server Error");
}

#[test]
fn status_responses() {
    assert_eq!(Status::Okay.to_response(), "HTTP/1.1 200 Ok\r\n\r\n");
    assert_eq!(Status::BadRequest.to_response(), "HTTP/1.1 400 Bad Request\r\n\r\n");
    assert_eq!(Status::NotFound.to_response(), "HTTP/1.1 404 Not Found\r\n\r\n");
    assert_eq!(
        Status::RangeNotSatisfiable.to_response(),
        "HTTP/1.1 416 Range Not Satisfiable\r\n\r\n"
    );
    assert_eq!(
        Status::InternalServerError.to_response(),
        "HTTP/1.1 500 Internal Server Error\r\n\r\n"
    );
}

#[test]
fn traversal_is_rejected() {
    // Scenario: GET /../secret.mp4 is 404, whatever is on disk
    let req = Request::parse(b"GET /../secret.mp4 HTTP/1.1\r\n\r\n").unwrap();
    let (delivery, _) = classify(".", &req);
    assert!(matches!(delivery, Delivery::Rejected));
}

#[test]
fn traversal_with_backslash_is_rejected() {
    let (delivery, _) = classify(".", &request_for("/..\\secret.mp4"));
    assert!(matches!(delivery, Delivery::Rejected));
}

#[test]
fn dotted_names_are_not_traversal() {
    let (delivery, _) = classify(".", &request_for("/a..b.mp4"));
    assert!(matches!(delivery, Delivery::VideoFile));
}

#[test]
fn classify_static_file() {
    let (delivery, full) = classify(".", &request_for("/poster.jpg"));
    assert!(matches!(delivery, Delivery::StaticFile { content_type: ContentType::Jpeg }));
    assert_eq!(full, "./poster.jpg");
}

#[test]
fn classify_unknown_extension() {
    let (delivery, _) = classify(".", &request_for("/notes.txt"));
    assert!(matches!(delivery, Delivery::Rejected));
    let (delivery, _) = classify(".", &request_for("/page.html"));
    assert!(matches!(delivery, Delivery::Rejected));
}

#[test]
fn classify_listing_and_watch() {
    let req = Request::parse(b"GET / HTTP/1.1\r\n\r\n").unwrap();
    let (delivery, full) = classify(".", &req);
    assert!(matches!(delivery, Delivery::ListingPage));
    assert_eq!(full, "./");

    let req = Request::parse(b"GET /?watch=Movie%20One HTTP/1.1\r\n\r\n").unwrap();
    let (delivery, _) = classify(".", &req);
    match delivery {
        Delivery::VideoPage { video_name } => assert_eq!(video_name, "Movie One"),
        _ => panic!("expected the video page"),
    }
}

#[test]
fn classify_last_watch_wins() {
    let req = Request::parse(b"GET /?watch=First&watch=Second HTTP/1.1\r\n\r\n").unwrap();
    let (delivery, _) = classify(".", &req);
    match delivery {
        Delivery::VideoPage { video_name } => assert_eq!(video_name, "Second"),
        _ => panic!("expected the video page"),
    }
}

#[test]
fn classify_empty_watch_lists() {
    let req = Request::parse(b"GET /?watch= HTTP/1.1\r\n\r\n").unwrap();
    let (delivery, _) = classify(".", &req);
    assert!(matches!(delivery, Delivery::ListingPage));
}

#[test]
fn content_type_names() {
    assert_eq!(ContentType::Html.to_str(), "text/html");
    assert_eq!(ContentType::Jpeg.to_str(), "image/jpeg");
    assert_eq!(ContentType::Js.to_str(), "text/javascript");
    assert_eq!(ContentType::Mp4.to_str(), "video/mp4");
    assert_eq!(ContentType::Png.to_str(), "image/png");
    assert_eq!(ContentType::Vtt.to_str(), "text/vtt");
    assert_eq!(ContentType::Webp.to_str(), "image/webp");
}

#[test]
fn whole_file_download_totals() {
    // Scenario: a 3 000 000-byte file is sent whole, in bounded chunks
    let total: usize = 3_000_000;
    let plan = plan_video(None, total);
    let buffer_size = match plan {
        VideoPlan::Download { buffer_size } => buffer_size,
        _ => panic!("expected a whole-file download"),
    };
    assert_eq!(buffer_size, VIDEO_BUFFER_SIZE);

    let head = build_content_head(Status::Okay, total, "video/mp4");
    assert_eq!(
        head,
        "HTTP/1.1 200 Ok\r\nContent-Length: 3000000\r\nContent-Type: video/mp4\r\n\r\n"
    );

    // Replay the download loop over an in-memory file: each read hands back
    // at most the buffer size, and a zero-length read ends the loop.
    let mut offset: usize = 0;
    let mut chunks: Vec<usize> = Vec::new();
    loop {
        let n = buffer_size.min(total - offset);
        if n == 0 {
            break;
        }
        chunks.push(n);
        offset += n;
    }
    assert_eq!(offset, total);
    assert!(chunks.len() >= 2);
    assert!(chunks.iter().all(|&c| c <= 2_097_152));
}

#[test]
fn small_download_buffer_is_file_sized() {
    let plan = plan_video(None, 5000);
    assert_eq!(plan, VideoPlan::Download { buffer_size: 5000 });
}

#[test]
fn range_request_one_chunk() {
    // Scenario: Range: bytes=1000- on a 5000-byte file
    let plan = plan_video(Some(1000), 5000);
    assert_eq!(plan, VideoPlan::Stream { begin: 1000, length: 4000 });
    let head = build_partial_head(1000, 4000, 5000, "video/mp4");
    assert_eq!(
        head,
        "HTTP/1.1 206 Partial Content\r\nContent-Length: 4000\r\nContent-Range: bytes 1000-4999/5000\r\nContent-Type: video/mp4\r\n\r\n"
    );
}

#[test]
fn range_chunk_is_capped() {
    let total: usize = 10_000_000;
    let begin: usize = 1_000_000;
    let plan = plan_video(Some(begin), total);
    let length = match plan {
        VideoPlan::Stream { begin: b, length } => {
            assert_eq!(b, begin);
            length
        },
        _ => panic!("expected one chunk"),
    };
    assert_eq!(length, VIDEO_BUFFER_SIZE);
    let head = build_partial_head(begin, length, total, "video/mp4");
    // Content-Range end = begin + min(total - begin, 2_097_152) - 1
    assert_eq!(
        head,
        "HTTP/1.1 206 Partial Content\r\nContent-Length: 2097152\r\nContent-Range: bytes 1000000-3097151/10000000\r\nContent-Type: video/mp4\r\n\r\n"
    );
}

#[test]
fn range_past_end_is_unsatisfiable() {
    // Scenario: Range: bytes=9000- on a 5000-byte file
    assert_eq!(plan_video(Some(9000), 5000), VideoPlan::Unsatisfiable);
    assert_eq!(plan_video(Some(5000), 5000), VideoPlan::Unsatisfiable);
    assert_eq!(
        Status::RangeNotSatisfiable.to_response(),
        "HTTP/1.1 416 Range Not Satisfiable\r\n\r\n"
    );
}

#[test]
fn range_at_last_byte() {
    assert_eq!(plan_video(Some(4999), 5000), VideoPlan::Stream { begin: 4999, length: 1 });
    let head = build_partial_head(4999, 1, 5000, "video/mp4");
    assert_eq!(
        head,
        "HTTP/1.1 206 Partial Content\r\nContent-Length: 1\r\nContent-Range: bytes 4999-4999/5000\r\nContent-Type: video/mp4\r\n\r\n"
    );
}

#[test]
fn content_head_for_static_files() {
    let head = build_content_head(Status::Okay, 42, "image/png");
    assert_eq!(head, "HTTP/1.1 200 Ok\r\nContent-Length: 42\r\nContent-Type: image/png\r\n\r\n");
}
